use shellcore::builtins::{mkdir_model, rm_model};
use shellcore::errors::message_of;
use shellcore::fsmodel::{FsModel, Node, NodeKind};
use shellcore::paths::parse_path;

#[test]
fn test_remove_nonexistent_file() {
    let mut fs = FsModel::new();
    let result = rm_model(&mut fs, &parse_path("nonexistent.txt"), false);
    assert!(result.is_err());
    if let Err(e) = result {
        assert!(message_of(e).contains("No such file or directory"));
    }
}

#[test]
fn test_remove_file() {
    let mut fs = FsModel::new();
    fs.insert_node(
        parse_path("test_rm_file.txt"),
        Node::File { content: b"test content".to_vec(), mode: 0o100644 },
    );

    let result = rm_model(&mut fs, &parse_path("test_rm_file.txt"), false);
    assert!(result.is_ok());

    assert_eq!(fs.kind_of(&parse_path("test_rm_file.txt")), NodeKind::Missing);
}

#[test]
fn test_remove_directory_without_recursive() {
    let mut fs = FsModel::new();
    mkdir_model(&mut fs, &parse_path("test_rm_dir")).unwrap();

    let result = rm_model(&mut fs, &parse_path("test_rm_dir"), false);
    assert!(result.is_err());
    if let Err(e) = result {
        assert!(message_of(e).contains("Is a directory"));
    }
    assert_eq!(fs.kind_of(&parse_path("test_rm_dir")), NodeKind::Directory);
}

#[test]
fn test_remove_directory_with_recursive() {
    let mut fs = FsModel::new();
    mkdir_model(&mut fs, &parse_path("test_rm_recursive")).unwrap();
    fs.insert_node(
        parse_path("test_rm_recursive/file.txt"),
        Node::File { content: b"content".to_vec(), mode: 0o100644 },
    );
    mkdir_model(&mut fs, &parse_path("test_rm_recursive/subdir")).unwrap();
    fs.insert_node(
        parse_path("test_rm_recursive/subdir/nested.txt"),
        Node::File { content: b"nested".to_vec(), mode: 0o100644 },
    );

    let result = rm_model(&mut fs, &parse_path("test_rm_recursive"), true);
    assert!(result.is_ok());

    assert_eq!(fs.kind_of(&parse_path("test_rm_recursive")), NodeKind::Missing);
    assert_eq!(fs.kind_of(&parse_path("test_rm_recursive/file.txt")), NodeKind::Missing);
    assert_eq!(fs.kind_of(&parse_path("test_rm_recursive/subdir/nested.txt")), NodeKind::Missing);
}

#[test]
fn test_remove_multiple_files() {
    let mut fs = FsModel::new();
    fs.insert_node(
        parse_path("test_rm1.txt"),
        Node::File { content: b"content1".to_vec(), mode: 0o100644 },
    );
    fs.insert_node(
        parse_path("test_rm2.txt"),
        Node::File { content: b"content2".to_vec(), mode: 0o100644 },
    );

    let result1 = rm_model(&mut fs, &parse_path("test_rm1.txt"), false);
    let result2 = rm_model(&mut fs, &parse_path("test_rm2.txt"), false);

    assert!(result1.is_ok());
    assert!(result2.is_ok());

    assert_eq!(fs.kind_of(&parse_path("test_rm1.txt")), NodeKind::Missing);
    assert_eq!(fs.kind_of(&parse_path("test_rm2.txt")), NodeKind::Missing);
}
