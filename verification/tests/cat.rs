use shellcore::builtins::{cat_model, mkdir_model};
use shellcore::errors::message_of;
use shellcore::fsmodel::{FsModel, Node};
use shellcore::paths::parse_path;

#[test]
fn test_cat_nonexistent_file() {
    let fs = FsModel::new();
    let result = cat_model(&fs, &parse_path("nonexistent_file.txt"));
    assert!(result.is_err());
}

#[test]
fn test_cat_directory() {
    let mut fs = FsModel::new();
    mkdir_model(&mut fs, &parse_path("src")).unwrap();
    let result = cat_model(&fs, &parse_path("src"));
    assert!(result.is_err());
    if let Err(e) = result {
        assert!(message_of(e).contains("Is a directory"));
    }
}

#[test]
fn test_cat_existing_file() {
    let mut fs = FsModel::new();
    let test_content = "Hello, World!\nThis is a test file.\n";
    fs.insert_node(
        parse_path("test_cat.txt"),
        Node::File { content: test_content.as_bytes().to_vec(), mode: 0o100644 },
    );

    let result = cat_model(&fs, &parse_path("test_cat.txt"));
    assert!(result.is_ok());
    assert_eq!(result.unwrap(), test_content.as_bytes().to_vec());
}
