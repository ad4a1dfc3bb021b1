use shellcore::builtins::mkdir_model;
use shellcore::errors::{ErrKind, message_of};
use shellcore::fsmodel::{FsModel, Node, NodeKind};
use shellcore::paths::parse_path;

#[test]
fn test_create_directory() {
    let mut fs = FsModel::new();
    let dir_name = "test_mkdir_dir";

    let result = mkdir_model(&mut fs, &parse_path(dir_name));
    assert!(result.is_ok());

    let kind = fs.kind_of(&parse_path(dir_name));
    assert!(kind != NodeKind::Missing);
    assert_eq!(kind, NodeKind::Directory);
}

#[test]
fn test_create_existing_directory() {
    let mut fs = FsModel::new();
    let dir_name = "test_mkdir_existing";

    mkdir_model(&mut fs, &parse_path(dir_name)).unwrap();

    let result = mkdir_model(&mut fs, &parse_path(dir_name));
    assert!(result.is_err());
    if let Err(e) = result {
        assert!(message_of(e).contains("File exists"));
    }
}

#[test]
fn test_create_directory_where_file_exists() {
    let mut fs = FsModel::new();
    let file_name = "test_mkdir_file_conflict";

    fs.insert_node(
        parse_path(file_name),
        Node::File { content: b"content".to_vec(), mode: 0o100644 },
    );

    let result = mkdir_model(&mut fs, &parse_path(file_name));
    assert!(result.is_err());
    if let Err(e) = result {
        assert!(message_of(e).contains("File exists"));
    }
}

#[test]
fn test_create_multiple_directories() {
    let mut fs = FsModel::new();
    let dir1 = "test_mkdir_multi1";
    let dir2 = "test_mkdir_multi2";

    let result1 = mkdir_model(&mut fs, &parse_path(dir1));
    let result2 = mkdir_model(&mut fs, &parse_path(dir2));

    assert!(result1.is_ok());
    assert!(result2.is_ok());

    assert_eq!(fs.kind_of(&parse_path(dir1)), NodeKind::Directory);
    assert_eq!(fs.kind_of(&parse_path(dir2)), NodeKind::Directory);
}

#[test]
fn test_create_directory_invalid_parent() {
    let mut fs = FsModel::new();
    let result = mkdir_model(&mut fs, &parse_path("nonexistent_parent/new_dir"));
    assert!(result.is_err());
    assert!(matches!(result, Err(ErrKind::ParentMissing)));
}
