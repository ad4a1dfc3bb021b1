use shellcore::builtins::{cat_model, cp_model, mkdir_model};
use shellcore::errors::message_of;
use shellcore::fsmodel::{FsModel, Node, NodeKind};
use shellcore::paths::parse_path;

#[test]
fn test_copy_nonexistent_file() {
    let mut fs = FsModel::new();
    let result = cp_model(&mut fs, &parse_path("nonexistent.txt"), &parse_path("dest.txt"));
    assert!(result.is_err());
    if let Err(e) = result {
        assert!(message_of(e).contains("No such file or directory"));
    }
}

#[test]
fn test_copy_directory() {
    let mut fs = FsModel::new();
    mkdir_model(&mut fs, &parse_path("src")).unwrap();
    let result = cp_model(&mut fs, &parse_path("src"), &parse_path("dest"));
    assert!(result.is_err());
    if let Err(e) = result {
        assert!(message_of(e).contains("Is a directory"));
    }
}

#[test]
fn test_copy_file_to_file() {
    let mut fs = FsModel::new();
    let test_content = "Hello, copy test!";
    fs.insert_node(
        parse_path("test_source.txt"),
        Node::File { content: test_content.as_bytes().to_vec(), mode: 0o100644 },
    );

    let result = cp_model(&mut fs, &parse_path("test_source.txt"), &parse_path("test_dest.txt"));
    assert!(result.is_ok());

    let copied = cat_model(&fs, &parse_path("test_dest.txt")).unwrap();
    assert_eq!(copied, test_content.as_bytes().to_vec());
}

#[test]
fn test_copy_file_to_directory() {
    let mut fs = FsModel::new();
    let test_content = "Directory copy test";
    fs.insert_node(
        parse_path("test_source_dir.txt"),
        Node::File { content: test_content.as_bytes().to_vec(), mode: 0o100644 },
    );
    mkdir_model(&mut fs, &parse_path("test_dir")).unwrap();

    let result = cp_model(&mut fs, &parse_path("test_source_dir.txt"), &parse_path("test_dir"));
    assert!(result.is_ok());

    let copied_path = parse_path("test_dir/test_source_dir.txt");
    assert_eq!(fs.kind_of(&copied_path), NodeKind::RegularFile);
    let copied = cat_model(&fs, &copied_path).unwrap();
    assert_eq!(copied, test_content.as_bytes().to_vec());
}

#[test]
fn test_copy_preserves_permissions() {
    let mut fs = FsModel::new();
    fs.insert_node(
        parse_path("tool.sh"),
        Node::File { content: b"#!/bin/sh\n".to_vec(), mode: 0o100755 },
    );

    cp_model(&mut fs, &parse_path("tool.sh"), &parse_path("tool_copy.sh")).unwrap();

    assert_eq!(fs.mode_of(&parse_path("tool_copy.sh")), Some(0o100755));
}

#[test]
fn test_copy_overwrites_existing_file() {
    let mut fs = FsModel::new();
    fs.insert_node(
        parse_path("a.txt"),
        Node::File { content: b"new".to_vec(), mode: 0o100600 },
    );
    fs.insert_node(
        parse_path("b.txt"),
        Node::File { content: b"old".to_vec(), mode: 0o100644 },
    );

    cp_model(&mut fs, &parse_path("a.txt"), &parse_path("b.txt")).unwrap();

    assert_eq!(cat_model(&fs, &parse_path("b.txt")).unwrap(), b"new".to_vec());
    assert_eq!(fs.mode_of(&parse_path("b.txt")), Some(0o100600));
}
