use shellcore::split::parse_command;

#[test]
fn test_empty_input() {
    let (cmd, args) = parse_command("");
    assert_eq!(cmd, "");
    assert_eq!(args, Vec::<&str>::new());
}

#[test]
fn test_single_command() {
    let (cmd, args) = parse_command("pwd");
    assert_eq!(cmd, "pwd");
    assert_eq!(args, Vec::<&str>::new());
}

#[test]
fn test_command_with_args() {
    let (cmd, args) = parse_command("echo hello world");
    assert_eq!(cmd, "echo");
    assert_eq!(args, vec!["hello", "world"]);
}

#[test]
fn test_extra_interior_whitespace() {
    let (cmd, args) = parse_command("echo  hello   world");
    assert_eq!(cmd, "echo");
    assert_eq!(args, vec!["hello", "world"]);
}

#[test]
fn test_whitespace_only_input() {
    let (cmd, args) = parse_command(" \t  ");
    assert_eq!(cmd, "");
    assert_eq!(args, Vec::<&str>::new());
}

#[test]
fn test_leading_and_trailing_whitespace() {
    let (cmd, args) = parse_command("  ls -la /tmp  ");
    assert_eq!(cmd, "ls");
    assert_eq!(args, vec!["-la", "/tmp"]);
}
