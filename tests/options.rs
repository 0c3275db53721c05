use mandel_view::options::{parse_pair, separator_error, split_pair};

#[test]
fn parses_window_size() {
    assert_eq!(parse_pair("1200x800", 'x'), Ok((1200, 800)));
    assert_eq!(parse_pair("+7x0", 'x'), Ok((7, 0)));
}

#[test]
fn missing_separator_is_reported() {
    assert_eq!(
        parse_pair("1200", 'x'),
        Err("expected argument in XxY format".to_string())
    );
    assert_eq!(separator_error(','), "expected argument in X,Y format".to_string());
}

#[test]
fn bad_sides_are_reported() {
    assert_eq!(parse_pair("ax5", 'x'), Err("invalid X".to_string()));
    assert_eq!(parse_pair("5x", 'x'), Err("invalid Y".to_string()));
    assert_eq!(parse_pair("-1x5", 'x'), Err("invalid X".to_string()));
    assert_eq!(parse_pair("4294967296x1", 'x'), Err("invalid X".to_string()));
    assert_eq!(parse_pair("4294967295x1", 'x'), Ok((4294967295, 1)));
    assert_eq!(parse_pair("1x2x3", 'x'), Err("invalid Y".to_string()));
}

#[test]
fn splits_at_first_separator() {
    assert_eq!(split_pair("-0.5,0.0", ','), Some(("-0.5", "0.0")));
    assert_eq!(split_pair("a,b,c", ','), Some(("a", "b,c")));
    assert_eq!(split_pair("é,ü", ','), Some(("é", "ü")));
    assert_eq!(split_pair(",", ','), Some(("", "")));
    assert_eq!(split_pair("abc", ','), None);
}
