use ferriscuit::strutil::{
    parse_u64, split_str, split_ws, str_contains, str_contains_ci, str_eq, str_eq_ci,
    to_ascii_lower, trim_str, trim_trailing_nuls, usize_to_string,
};

#[test]
fn case_insensitive_comparison() {
    assert!(str_eq_ci("EcHo", "echo"));
    assert!(!str_eq_ci("echo", "echos"));
    assert!(str_contains_ci("*2\r\n$4\r\necho\r\n", "ECHO"));
    assert!(!str_contains_ci("*1\r\n$4\r\nPING\r\n", "ECHO"));
}

#[test]
fn case_sensitive_search() {
    assert!(str_eq("abc", "abc"));
    assert!(!str_eq("abc", "abd"));
    assert!(str_contains("/files/notes", "/files/"));
    assert!(!str_contains("/Files/notes", "/files/"));
}

#[test]
fn splitting_at_separators() {
    let s = "a\r\nbb\r\n";
    assert_eq!(split_str(s, "\r\n"), vec!["a", "bb", ""]);
    assert_eq!(split_str("nosep", "\r\n"), vec!["nosep"]);
    assert_eq!(split_str("//", "/"), vec!["", "", ""]);
}

#[test]
fn splitting_at_whitespace() {
    assert_eq!(
        split_ws("GET /path HTTP/1.1"),
        vec!["GET".to_string(), "/path".to_string(), "HTTP/1.1".to_string()]
    );
    assert_eq!(split_ws("  a\t b  "), vec!["a".to_string(), "b".to_string()]);
    assert_eq!(split_ws("   "), Vec::<String>::new());
}

#[test]
fn trimming() {
    assert_eq!(trim_str("  hi \r\n"), "hi");
    assert_eq!(trim_str("hi"), "hi");
    assert_eq!(trim_str(" \t "), "");
    assert_eq!(trim_trailing_nuls("data\0\0\0"), "data");
    assert_eq!(trim_trailing_nuls("data"), "data");
}

#[test]
fn decimal_rendering_and_parsing() {
    assert_eq!(usize_to_string(0), "0");
    assert_eq!(usize_to_string(7), "7");
    assert_eq!(usize_to_string(90210), "90210");
    assert_eq!(parse_u64("150"), Some(150));
    assert_eq!(parse_u64("0"), Some(0));
    assert_eq!(parse_u64("18446744073709551615"), Some(u64::MAX));
    assert_eq!(parse_u64("18446744073709551616"), None);
    assert_eq!(parse_u64(""), None);
    assert_eq!(parse_u64("12a"), None);
}

#[test]
fn ascii_lowering() {
    assert_eq!(to_ascii_lower("MiXeD-Case_09"), "mixed-case_09");
    assert_eq!(to_ascii_lower("dir"), "dir");
    assert_eq!(to_ascii_lower(""), "");
}
