use shellcore::builtins::{cat_model, copy_remove_model, mkdir_model, mv_model};
use shellcore::errors::message_of;
use shellcore::fsmodel::{FsModel, Node, NodeKind};
use shellcore::paths::parse_path;

#[test]
fn test_move_nonexistent_file() {
    let mut fs = FsModel::new();
    let result = mv_model(&mut fs, &parse_path("nonexistent.txt"), &parse_path("dest.txt"));
    assert!(result.is_err());
    if let Err(e) = result {
        assert!(message_of(e).contains("No such file or directory"));
    }
}

#[test]
fn test_move_file_to_file() {
    let mut fs = FsModel::new();
    let test_content = "Hello, move test!";
    fs.insert_node(
        parse_path("test_mv_source.txt"),
        Node::File { content: test_content.as_bytes().to_vec(), mode: 0o100644 },
    );

    let result = mv_model(&mut fs, &parse_path("test_mv_source.txt"), &parse_path("test_mv_dest.txt"));
    assert!(result.is_ok());

    assert_eq!(fs.kind_of(&parse_path("test_mv_source.txt")), NodeKind::Missing);
    assert_eq!(fs.kind_of(&parse_path("test_mv_dest.txt")), NodeKind::RegularFile);

    let moved = cat_model(&fs, &parse_path("test_mv_dest.txt")).unwrap();
    assert_eq!(moved, test_content.as_bytes().to_vec());
}

#[test]
fn test_move_file_to_directory() {
    let mut fs = FsModel::new();
    let test_content = "Directory move test";
    fs.insert_node(
        parse_path("test_mv_source_dir.txt"),
        Node::File { content: test_content.as_bytes().to_vec(), mode: 0o100644 },
    );
    mkdir_model(&mut fs, &parse_path("test_mv_dir")).unwrap();

    let result = mv_model(&mut fs, &parse_path("test_mv_source_dir.txt"), &parse_path("test_mv_dir"));
    assert!(result.is_ok());

    assert_eq!(fs.kind_of(&parse_path("test_mv_source_dir.txt")), NodeKind::Missing);
    let moved_path = parse_path("test_mv_dir/test_mv_source_dir.txt");
    assert_eq!(fs.kind_of(&moved_path), NodeKind::RegularFile);

    let moved = cat_model(&fs, &moved_path).unwrap();
    assert_eq!(moved, test_content.as_bytes().to_vec());
}

#[test]
fn test_move_same_path() {
    let mut fs = FsModel::new();
    let test_content = "Same path test";
    fs.insert_node(
        parse_path("test_mv_same.txt"),
        Node::File { content: test_content.as_bytes().to_vec(), mode: 0o100644 },
    );

    let result = mv_model(&mut fs, &parse_path("test_mv_same.txt"), &parse_path("test_mv_same.txt"));
    assert!(result.is_ok());

    assert_eq!(fs.kind_of(&parse_path("test_mv_same.txt")), NodeKind::RegularFile);
    let content = cat_model(&fs, &parse_path("test_mv_same.txt")).unwrap();
    assert_eq!(content, test_content.as_bytes().to_vec());
}

#[test]
fn test_copy_and_remove_fallback() {
    let mut fs = FsModel::new();
    let test_content = "Copy and remove test";
    fs.insert_node(
        parse_path("test_copy_remove.txt"),
        Node::File { content: test_content.as_bytes().to_vec(), mode: 0o100644 },
    );

    let result = copy_remove_model(
        &mut fs,
        &parse_path("test_copy_remove.txt"),
        &parse_path("test_copy_remove_dest.txt"),
    );
    assert!(result.is_ok());

    assert_eq!(fs.kind_of(&parse_path("test_copy_remove.txt")), NodeKind::Missing);
    assert_eq!(fs.kind_of(&parse_path("test_copy_remove_dest.txt")), NodeKind::RegularFile);

    let moved = cat_model(&fs, &parse_path("test_copy_remove_dest.txt")).unwrap();
    assert_eq!(moved, test_content.as_bytes().to_vec());
}

#[test]
fn test_cross_device_directory_move_unsupported() {
    let mut fs = FsModel::new();
    mkdir_model(&mut fs, &parse_path("some_dir")).unwrap();

    let result = copy_remove_model(&mut fs, &parse_path("some_dir"), &parse_path("elsewhere"));
    assert!(result.is_err());
    if let Err(e) = result {
        assert!(message_of(e).contains("not supported"));
    }
    assert_eq!(fs.kind_of(&parse_path("some_dir")), NodeKind::Directory);
}

#[test]
fn test_move_directory_with_contents() {
    let mut fs = FsModel::new();
    mkdir_model(&mut fs, &parse_path("olddir")).unwrap();
    fs.insert_node(
        parse_path("olddir/inner.txt"),
        Node::File { content: b"inner".to_vec(), mode: 0o100644 },
    );

    let result = mv_model(&mut fs, &parse_path("olddir"), &parse_path("newdir"));
    assert!(result.is_ok());

    assert_eq!(fs.kind_of(&parse_path("olddir")), NodeKind::Missing);
    assert_eq!(fs.kind_of(&parse_path("newdir")), NodeKind::Directory);
    assert_eq!(cat_model(&fs, &parse_path("newdir/inner.txt")).unwrap(), b"inner".to_vec());
}
