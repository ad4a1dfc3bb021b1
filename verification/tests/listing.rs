use shellcore::listing::{
    classified_name, long_line, ls_select, parse_ls_args, sort_names, EntryMeta, LsFlags,
};

fn strings(v: Vec<&str>) -> Vec<String> {
    v.into_iter().map(|s| s.to_string()).collect()
}

#[test]
fn test_ls_all_shows_hidden_sorted() {
    let names = strings(vec![".hidden", "visible"]);
    let all = ls_select(names.clone(), true);
    assert_eq!(all, vec![".hidden", "visible"]);

    let plain = ls_select(names, false);
    assert_eq!(plain, vec!["visible"]);
}

#[test]
fn test_ls_select_sorts_by_name() {
    let names = strings(vec!["zeta", "alpha", "mid"]);
    let sorted = ls_select(names, false);
    assert_eq!(sorted, vec!["alpha", "mid", "zeta"]);
}

#[test]
fn test_sort_names_orders_lexicographically() {
    let names = strings(vec!["b", "a", "ab", "A"]);
    let sorted = sort_names(names);
    assert_eq!(sorted, vec!["A", "a", "ab", "b"]);
}

#[test]
fn test_parse_ls_args_combined_flags() {
    let r = parse_ls_args(&strings(vec!["-la"])).unwrap();
    assert_eq!(
        r.0,
        LsFlags { show_all: true, long_format: true, classify: false }
    );
    assert!(r.1.is_none());

    let r = parse_ls_args(&strings(vec!["-a", "-F", "somewhere"])).unwrap();
    assert_eq!(
        r.0,
        LsFlags { show_all: true, long_format: false, classify: true }
    );
    assert_eq!(r.1, Some("somewhere".to_string()));
}

#[test]
fn test_parse_ls_args_invalid_option() {
    let r = parse_ls_args(&strings(vec!["-lx"]));
    assert_eq!(r, Err('x'));
}

#[test]
fn test_classified_name_suffixes() {
    assert_eq!(classified_name("docs".to_string(), true, 0o040755), "docs/");
    assert_eq!(classified_name("tool".to_string(), false, 0o100755), "tool*");
    assert_eq!(classified_name("plain.txt".to_string(), false, 0o100644), "plain.txt");
}

#[test]
fn test_long_line_rendering() {
    let meta = EntryMeta {
        mode: 0o100755,
        nlink: 1,
        uid: 0,
        gid: 0,
        size: 42,
        mtime: 3661,
    };
    let line = long_line("tool".to_string(), false, meta);
    assert_eq!(line, "-rwxr-xr-x   1 0:0       42 01:01 tool*");
}
