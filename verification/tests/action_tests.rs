use bot_sim::action::format_action;
use bot_sim::action::parse_action;

#[test]
fn parses_simple_pair() {
    assert_eq!(parse_action("(1, 0)"), Ok((1, 0)));
}

#[test]
fn parses_with_surrounding_whitespace() {
    assert_eq!(parse_action("  \n(3, 4)\n"), Ok((3, 4)));
    assert_eq!(parse_action("( 1 , 2 )"), Ok((1, 2)));
    assert_eq!(parse_action("(\t-7 ,\t8 )"), Ok((-7, 8)));
}

#[test]
fn parses_with_unicode_whitespace() {
    assert_eq!(parse_action("\u{000B}(1, 2)"), Ok((1, 2)));
    assert_eq!(parse_action("\u{000C}(1, 2)\u{0085}"), Ok((1, 2)));
    assert_eq!(parse_action("\u{00A0}(\u{2028}3\u{2009}, \u{3000}4 )\u{202F}"), Ok((3, 4)));
    assert_eq!(parse_action("\u{205F}(\u{2000}-5 ,\u{1680}6\u{200A})\u{2029}"), Ok((-5, 6)));
    // every whitespace character str::trim strips is stripped here too
    let all_whitespace = ['\u{0009}', '\u{000A}', '\u{000B}', '\u{000C}', '\u{000D}', '\u{0020}',
        '\u{0085}', '\u{00A0}', '\u{1680}', '\u{2000}', '\u{2001}', '\u{2002}', '\u{2003}',
        '\u{2004}', '\u{2005}', '\u{2006}', '\u{2007}', '\u{2008}', '\u{2009}', '\u{200A}',
        '\u{2028}', '\u{2029}', '\u{202F}', '\u{205F}', '\u{3000}'];
    for ws in all_whitespace {
        assert!(ws.is_whitespace());
        let padded = format!("{}(9, 9){}", ws, ws);
        assert_eq!(parse_action(&padded), Ok((9, 9)));
    }
}

#[test]
fn parses_signed_fields() {
    assert_eq!(parse_action("(-1, -2)"), Ok((-1, -2)));
    assert_eq!(parse_action("(+5, +6)"), Ok((5, 6)));
    assert_eq!(parse_action("(-0, 0)"), Ok((0, 0)));
}

#[test]
fn parses_extreme_values() {
    assert_eq!(parse_action("(-2147483648, 2147483647)"), Ok((i32::MIN, i32::MAX)));
    assert_eq!(parse_action("(0000000000000000001, 0)"), Ok((1, 0)));
}

#[test]
fn rejects_overflowing_fields() {
    assert_eq!(parse_action("(2147483648, 0)"), Err(()));
    assert_eq!(parse_action("(0, -2147483649)"), Err(()));
    assert_eq!(parse_action("(99999999999999999999, 0)"), Err(()));
}

#[test]
fn rejects_wrong_field_count() {
    assert_eq!(parse_action("(1,2,3)"), Err(()));
    assert_eq!(parse_action("(1)"), Err(()));
    assert_eq!(parse_action("()"), Err(()));
    assert_eq!(parse_action("(,)"), Err(()));
    assert_eq!(parse_action("(1,)"), Err(()));
}

#[test]
fn rejects_non_numeric_fields() {
    assert_eq!(parse_action("(a,b)"), Err(()));
    assert_eq!(parse_action("(1.5, 2)"), Err(()));
    assert_eq!(parse_action("(+, 2)"), Err(()));
    assert_eq!(parse_action("(1 2, 3)"), Err(()));
}

#[test]
fn rejects_missing_parentheses() {
    assert_eq!(parse_action("1,2"), Err(()));
    assert_eq!(parse_action("( 1 , 2"), Err(()));
    assert_eq!(parse_action("1, 2)"), Err(()));
    assert_eq!(parse_action(""), Err(()));
    assert_eq!(parse_action("   "), Err(()));
}

#[test]
fn rejects_trailing_garbage() {
    assert_eq!(parse_action("(1, 2)x"), Err(()));
    assert_eq!(parse_action("x(1, 2)"), Err(()));
}

#[test]
fn formats_pairs() {
    assert_eq!(format_action(1, 0), "(1, 0)");
    assert_eq!(format_action(-5, 7), "(-5, 7)");
    assert_eq!(format_action(0, 0), "(0, 0)");
    assert_eq!(format_action(i32::MIN, i32::MAX), "(-2147483648, 2147483647)");
}

#[test]
fn format_then_parse_round_trips() {
    for &(dx, dy) in &[(0, 0), (1, -1), (42, 17), (-1000, 999), (i32::MIN, i32::MAX), (i32::MAX, i32::MIN)] {
        let text = format_action(dx, dy);
        assert_eq!(parse_action(&text), Ok((dx, dy)));
    }
}
