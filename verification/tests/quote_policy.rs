use rfe::quote_context::{apply_quote_policy, check_in_quote, is_after_closing_quote, is_before_closing_quote, Pair};
use rfe::quoting::{ensure_quoted, is_already_quoted, needs_quoting};

#[test]
fn test_needs_quoting_special_chars() {
    assert!(!needs_quoting("simple"));
    assert!(!needs_quoting("path/to/file.txt"));
    assert!(!needs_quoting("C:\\Users\\q\\Desktop"));
    assert!(!needs_quoting("中文路径"));

    assert!(needs_quoting("my folder"));
    assert!(needs_quoting("a b"));

    assert!(needs_quoting("Program Files (x86)"));
    assert!(needs_quoting("dir(1)"));
    assert!(needs_quoting("[bracket]"));
    assert!(needs_quoting("{brace}"));

    assert!(needs_quoting("a&b"));
    assert!(needs_quoting("a|b"));
    assert!(needs_quoting("a;b"));
    assert!(needs_quoting("a,b"));
}

#[test]
fn test_is_already_quoted() {
    assert!(!is_already_quoted(""));
    assert!(!is_already_quoted("\""));
    assert!(!is_already_quoted("'"));

    assert!(is_already_quoted(r#""path""#));
    assert!(is_already_quoted(r#""my path""#));

    assert!(is_already_quoted("'path'"));
    assert!(is_already_quoted("'my path'"));

    assert!(!is_already_quoted(r#""path'"#));
    assert!(!is_already_quoted("'path\""));

    assert!(!is_already_quoted(r#""path"#));
    assert!(!is_already_quoted("'path"));

    assert!(!is_already_quoted(r#"path""#));
    assert!(!is_already_quoted("path'"));

    assert!(!is_already_quoted("path"));
    assert!(!is_already_quoted("my path"));
}

#[test]
fn test_ensure_quoted() {
    assert_eq!(ensure_quoted(r#""my path""#), r#""my path""#);
    assert_eq!(ensure_quoted("'my path'"), "'my path'");

    assert_eq!(ensure_quoted("my path"), r#""my path""#);
    assert_eq!(ensure_quoted("Program Files"), r#""Program Files""#);
    assert_eq!(ensure_quoted("simple"), r#""simple""#);
    assert_eq!(ensure_quoted("path/to/file.txt"), r#""path/to/file.txt""#);
    assert_eq!(ensure_quoted("C:\\Users\\q\\Desktop"), r#""C:\Users\q\Desktop""#);
    assert_eq!(ensure_quoted("中文路径"), r#""中文路径""#);

    assert_eq!(ensure_quoted("dir(1)"), r#""dir(1)""#);
    assert_eq!(ensure_quoted("Program Files (x86)"), r#""Program Files (x86)""#);
    assert_eq!(ensure_quoted("a&b"), r#""a&b""#);
    assert_eq!(ensure_quoted("file;name"), r#""file;name""#);

    assert_eq!(ensure_quoted("my dir/"), r#""my dir/""#);
    assert_eq!(ensure_quoted("dir(1)/"), r#""dir(1)/""#);
}

#[test]
fn ensure_quoted_twice_is_once() {
    for s in ["simple", "my path", "\"q\"", "'x'", "", "\"half"] {
        let once = ensure_quoted(s);
        assert_eq!(ensure_quoted(&once), once);
    }
}

#[test]
fn ensure_quoted_empty_and_half_quoted() {
    assert_eq!(ensure_quoted(""), "\"\"");
    assert_eq!(ensure_quoted("\"half"), "\"\"half\"");
}

#[test]
fn needs_quoting_every_trigger() {
    for c in [' ', '\t', '(', ')', '[', ']', '{', '}', '&', '|', ';', ',', '^', '!', '`', '$', '#'] {
        let s = format!("a{}b", c);
        assert!(needs_quoting(&s), "{:?}", s);
    }
    assert!(!needs_quoting("a@b"));
    assert!(!needs_quoting("a/b\\c"));
}

fn pair(s: &str) -> Pair {
    Pair { display: s.to_string(), replacement: s.to_string() }
}

#[test]
fn apply_quote_policy_in_double_quote() {
    let mut c = vec![pair("file.txt"), pair("\"file with space.txt"), pair("'file.txt'")];
    apply_quote_policy(&mut c, true, '"', false);
    assert_eq!(c[0].replacement, "file.txt\"");
    assert_eq!(c[1].replacement, "file with space.txt\"");
    assert_eq!(c[2].replacement, "file.txt\"");
}

#[test]
fn apply_quote_policy_before_closing_quote() {
    let mut c = vec![pair("dir/")];
    apply_quote_policy(&mut c, true, '"', true);
    assert_eq!(c[0].replacement, "dir/");
}

#[test]
fn apply_quote_policy_outside_quotes() {
    let mut c = vec![pair("my dir/"), pair("\"in dex.txt"), pair("plain")];
    apply_quote_policy(&mut c, false, '"', false);
    assert_eq!(c[0].replacement, "\"my dir/\"");
    assert_eq!(c[1].replacement, "\"in dex.txt\"");
    assert_eq!(c[2].replacement, "\"plain\"");
}

#[test]
fn quote_state_of_a_line() {
    assert_eq!(check_in_quote("cd \"my fo", 9), (true, '"'));
    assert_eq!(check_in_quote("cd \"my\" fo", 10), (false, '"'));
    assert_eq!(check_in_quote("cd 'my fo", 9), (true, '\''));
    assert!(is_after_closing_quote("cd \"a b\"", 8));
    assert!(!is_after_closing_quote("cd \"a b", 7));
    assert!(is_before_closing_quote("cd \"a b\"", 7));
    assert!(!is_before_closing_quote("cd a", 4));
}
