use shellcore::modefmt::{format_mode, format_time, is_executable};

#[test]
fn test_format_mode() {
    let dir_mode = 0o040755;
    assert_eq!(format_mode(dir_mode), "drwxr-xr-x");

    let file_mode = 0o100644;
    assert_eq!(format_mode(file_mode), "-rw-r--r--");

    let exec_mode = 0o100755;
    assert_eq!(format_mode(exec_mode), "-rwxr-xr-x");
}

#[test]
fn test_format_mode_other_types() {
    assert_eq!(format_mode(0o120777), "lrwxrwxrwx");
    assert_eq!(format_mode(0o010600), "prw-------");
    assert_eq!(format_mode(0o140644), "srw-r--r--");
    assert_eq!(format_mode(0o060660), "brw-rw----");
    assert_eq!(format_mode(0o020666), "crw-rw-rw-");
    assert_eq!(format_mode(0), "?---------");
}

#[test]
fn test_format_time_renders_hours_and_minutes() {
    assert_eq!(format_time(0), "00:00");
    assert_eq!(format_time(3661), "01:01");
    assert_eq!(format_time(86399), "23:59");
    assert_eq!(format_time(86400 + 600), "00:10");
}

#[test]
fn test_is_executable() {
    assert!(is_executable(0o100755));
    assert!(!is_executable(0o100644));
    assert!(is_executable(0o100100));
}
