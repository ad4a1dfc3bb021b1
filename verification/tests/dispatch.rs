use shellcore::builtins::mkdir_model;
use shellcore::dispatch::{lookup, run_line, BuiltinId, Request};
use shellcore::fsmodel::{FsModel, Node, NodeKind};
use shellcore::paths::parse_path;

#[test]
fn test_lookup_exact_names() {
    assert_eq!(lookup("pwd"), BuiltinId::Pwd);
    assert_eq!(lookup("cd"), BuiltinId::Cd);
    assert_eq!(lookup("echo"), BuiltinId::Echo);
    assert_eq!(lookup("cat"), BuiltinId::Cat);
    assert_eq!(lookup("mkdir"), BuiltinId::Mkdir);
    assert_eq!(lookup("rm"), BuiltinId::Rm);
    assert_eq!(lookup("cp"), BuiltinId::Cp);
    assert_eq!(lookup("mv"), BuiltinId::Mv);
    assert_eq!(lookup("ls"), BuiltinId::Ls);
    assert_eq!(lookup("exit"), BuiltinId::Exit);
    assert_eq!(lookup(""), BuiltinId::Empty);
    assert_eq!(lookup("PWD"), BuiltinId::Unknown);
    assert_eq!(lookup("pwdd"), BuiltinId::Unknown);
}

#[test]
fn test_unknown_command_reports_once_and_mutates_nothing() {
    let mut fs = FsModel::new();
    mkdir_model(&mut fs, &parse_path("keep")).unwrap();
    fs.insert_node(
        parse_path("keep/file.txt"),
        Node::File { content: b"data".to_vec(), mode: 0o100644 },
    );

    let o = run_line(&mut fs, None, "frobnicate keep");

    assert_eq!(o.out.len(), 1);
    assert_eq!(o.out[0], "Command 'frobnicate' not found");
    assert!(o.err.is_empty());
    assert!(o.blobs.is_empty());
    assert!(matches!(o.req, Request::Proceed));
    assert_eq!(fs.kind_of(&parse_path("keep")), NodeKind::Directory);
    assert_eq!(fs.kind_of(&parse_path("keep/file.txt")), NodeKind::RegularFile);
}

#[test]
fn test_empty_line_is_a_no_op() {
    let mut fs = FsModel::new();
    let o = run_line(&mut fs, None, "   ");
    assert!(o.out.is_empty());
    assert!(o.err.is_empty());
    assert!(matches!(o.req, Request::Proceed));
}

#[test]
fn test_exit_requests_termination() {
    let mut fs = FsModel::new();
    let o = run_line(&mut fs, None, "exit");
    assert!(matches!(o.req, Request::Exit));
}

#[test]
fn test_echo_joins_arguments() {
    let mut fs = FsModel::new();
    let o = run_line(&mut fs, None, "echo hello   world");
    assert_eq!(o.out, vec!["hello world"]);
    assert!(o.err.is_empty());
}

#[test]
fn test_echo_no_arguments_prints_empty_line() {
    let mut fs = FsModel::new();
    let o = run_line(&mut fs, None, "echo");
    assert_eq!(o.out, vec![""]);
}

#[test]
fn test_mkdir_then_rm_through_dispatch() {
    let mut fs = FsModel::new();
    let o = run_line(&mut fs, None, "mkdir adir");
    assert!(o.err.is_empty());
    assert_eq!(fs.kind_of(&parse_path("adir")), NodeKind::Directory);

    let o = run_line(&mut fs, None, "rm adir");
    assert_eq!(o.err.len(), 1);
    assert!(o.err[0].contains("Is a directory"));

    let o = run_line(&mut fs, None, "rm -r adir");
    assert!(o.err.is_empty());
    assert_eq!(fs.kind_of(&parse_path("adir")), NodeKind::Missing);
}

#[test]
fn test_rm_missing_operand() {
    let mut fs = FsModel::new();
    let o = run_line(&mut fs, None, "rm");
    assert_eq!(o.err, vec!["rm: missing operand"]);

    let o = run_line(&mut fs, None, "rm -r");
    assert_eq!(o.err, vec!["rm: missing operand"]);
}

#[test]
fn test_rm_invalid_option() {
    let mut fs = FsModel::new();
    let o = run_line(&mut fs, None, "rm -rx thing");
    assert_eq!(o.err, vec!["rm: invalid option -- 'x'"]);
}

#[test]
fn test_cp_usage_error() {
    let mut fs = FsModel::new();
    let o = run_line(&mut fs, None, "cp lonely");
    assert_eq!(o.err, vec!["cp: usage: cp <source> <destination>"]);
}

#[test]
fn test_cat_streams_contents_in_order() {
    let mut fs = FsModel::new();
    fs.insert_node(
        parse_path("a.txt"),
        Node::File { content: b"first".to_vec(), mode: 0o100644 },
    );
    fs.insert_node(
        parse_path("b.txt"),
        Node::File { content: b"second".to_vec(), mode: 0o100644 },
    );

    let o = run_line(&mut fs, None, "cat a.txt missing.txt b.txt");
    assert_eq!(o.blobs, vec![b"first".to_vec(), b"second".to_vec()]);
    assert_eq!(o.err.len(), 1);
    assert!(o.err[0].contains("missing.txt"));
    assert!(o.err[0].contains("No such file or directory"));
}

#[test]
fn test_cd_home_expansion() {
    let mut fs = FsModel::new();
    let home = "/home/someone".to_string();

    let o = run_line(&mut fs, Some(&home), "cd");
    match o.req {
        Request::ChangeDir(t) => assert_eq!(t, "/home/someone"),
        _ => panic!("expected a change-directory request"),
    }

    let o = run_line(&mut fs, Some(&home), "cd ~/notes");
    match o.req {
        Request::ChangeDir(t) => assert_eq!(t, "/home/someone/notes"),
        _ => panic!("expected a change-directory request"),
    }

    let o = run_line(&mut fs, None, "cd ~");
    assert!(matches!(o.req, Request::Proceed));
    assert_eq!(o.err, vec!["cd: HOME environment variable not set"]);
}

#[test]
fn test_ls_is_delegated_with_arguments() {
    let mut fs = FsModel::new();
    let o = run_line(&mut fs, None, "ls -la somewhere");
    match o.req {
        Request::List(args) => assert_eq!(args, vec!["-la", "somewhere"]),
        _ => panic!("expected a listing request"),
    }
}
