use embedded_runner::marker::parse_test_marker;

fn parse(s: &str) -> Option<(Option<u32>, bool, String)> {
    let cs: Vec<char> = s.chars().collect();
    parse_test_marker(&cs).map(|m| (m.total, m.running, m.fn_name.iter().collect()))
}

#[test]
fn running_marker() {
    assert_eq!(parse("(1/12) running `my_test`..."), Some((Some(12), true, "my_test".to_string())));
}

#[test]
fn ignoring_marker() {
    assert_eq!(parse("(3/4) ignoring `skip_me`..."), Some((Some(4), false, "skip_me".to_string())));
}

#[test]
fn name_reaches_last_backtick() {
    assert_eq!(parse("(1/2) running `a`b`...x"), Some((Some(2), true, "a`b".to_string())));
    assert_eq!(parse("(1/2) running `a`...`b"), Some((Some(2), true, "a".to_string())));
}

#[test]
fn not_markers() {
    assert_eq!(parse("running `t`..."), None);
    assert_eq!(parse("(1/2) running `t`.."), None);
    assert_eq!(parse("(1/2) walking `t`..."), None);
    assert_eq!(parse("(/2) running `t`..."), None);
    assert_eq!(parse("(1/2)running `t`..."), None);
    assert_eq!(parse("(1/2) running ``..."), None);
    assert_eq!(parse("(1/2) running `t\n`..."), None);
}

#[test]
fn count_too_large() {
    assert_eq!(parse("(1/4294967296) running `t`..."), Some((None, true, "t".to_string())));
    assert_eq!(parse("(1/4294967295) running `t`..."), Some((Some(4294967295), true, "t".to_string())));
}

#[test]
fn unicode_whitespace_separates() {
    assert_eq!(parse("(1/2)\u{a0}running\tt`x`..."), None);
    assert_eq!(parse("(1/2)\u{a0}running\t`x`..."), Some((Some(2), true, "x".to_string())));
}
