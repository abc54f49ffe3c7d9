use kvbench::load::{load_initial, load_ops};
use kvbench::ops::{parse_initial_line, parse_op_line, Op};

fn expect_get(line: &str, key: &str) {
    match parse_op_line(line) {
        Some(Op::Get(k)) => assert_eq!(k, key),
        other => panic!("{line:?} parsed to {other:?}"),
    }
}

fn expect_put(line: &str, key: &str, value: &str) {
    match parse_op_line(line) {
        Some(Op::Put(k, v)) => {
            assert_eq!(k, key);
            assert_eq!(v, value);
        },
        other => panic!("{line:?} parsed to {other:?}"),
    }
}

#[test]
fn parses_get_lines() {
    expect_get("G abc", "abc");
    expect_get("  G   abc  ", "abc");
    expect_get("G\tabc", "abc");
    // Anything after the key of a lookup is ignored.
    expect_get("G abc extra", "abc");
}

#[test]
fn parses_set_lines() {
    expect_put("S abc http://x", "abc", "http://x");
    expect_put("  S  k  v ", "k", "v");
    expect_put("S\tk\tv", "k", "v");
    // A value keeps its inner whitespace.
    expect_put("S key some value with spaces", "key", "some value with spaces");
}

#[test]
fn any_unicode_whitespace_separates_tokens() {
    expect_get("G\u{000C}abc", "abc");
    expect_get("G\u{00A0}abc", "abc");
    expect_put("S\u{2003}k\u{2003}v", "k", "v");
    // Trailing whitespace of any kind is trimmed off the value.
    expect_put("S k v\u{3000}", "k", "v");
}

#[test]
fn rejects_malformed_op_lines() {
    for line in ["", "   ", "G", "G  ", "S", "S k", "S k  ", "X a b", "GG a", "g a"] {
        assert!(parse_op_line(line).is_none(), "{line:?} should not parse");
    }
}

#[test]
fn parses_initial_lines() {
    assert_eq!(
        parse_initial_line("abc\thttp://x"),
        Some(("abc".to_string(), "http://x".to_string()))
    );
    // Only the first two fields count.
    assert_eq!(
        parse_initial_line("a\tb\tc"),
        Some(("a".to_string(), "b".to_string()))
    );
    // A second field that is empty is still a second field.
    assert_eq!(parse_initial_line("a\t"), Some(("a".to_string(), "".to_string())));
}

#[test]
fn rejects_initial_lines_without_second_field() {
    assert_eq!(parse_initial_line("abc"), None);
    assert_eq!(parse_initial_line(""), None);
}

#[test]
fn load_ops_skips_malformed_lines() {
    let lines = vec![
        "G a".to_string(),
        "".to_string(),
        "S b http://y".to_string(),
        "nonsense".to_string(),
        "G c".to_string(),
    ];
    let ops = load_ops(&lines);
    assert_eq!(ops.len(), 3);
    match &ops[0] {
        Op::Get(k) => assert_eq!(k, "a"),
        other => panic!("unexpected {other:?}"),
    }
    match &ops[1] {
        Op::Put(k, v) => {
            assert_eq!(k, "b");
            assert_eq!(v, "http://y");
        },
        other => panic!("unexpected {other:?}"),
    }
    match &ops[2] {
        Op::Get(k) => assert_eq!(k, "c"),
        other => panic!("unexpected {other:?}"),
    }
}

#[test]
fn load_initial_skips_and_overwrites() {
    let lines = vec![
        "abc\thttp://x".to_string(),
        "no-tab-line".to_string(),
        "abc\thttp://y".to_string(),
        "def\thttp://z".to_string(),
    ];
    let m = load_initial(&lines, 2);
    assert_eq!(m.len(), 2);
    assert_eq!(m.get("abc").map(String::as_str), Some("http://y"));
    assert_eq!(m.get("def").map(String::as_str), Some("http://z"));
    assert_eq!(m.get("no-tab-line"), None);
}
