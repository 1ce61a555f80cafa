use breakout::storage::{load_scores, parse_scores, save_scores};

#[test]
fn parse_valid_csv() {
    assert_eq!(parse_scores("100,50,20"), [100, 50, 20]);
}

#[test]
fn parse_empty_string() {
    assert_eq!(parse_scores(""), [0, 0, 0]);
}

#[test]
fn parse_partial_csv() {
    assert_eq!(parse_scores("100"), [100, 0, 0]);
    assert_eq!(parse_scores("100,50"), [100, 50, 0]);
}

#[test]
fn parse_invalid_csv() {
    assert_eq!(parse_scores("abc,def,ghi"), [0, 0, 0]);
}

#[test]
fn parse_skips_unreadable_fields() {
    assert_eq!(parse_scores("abc, 7 ,+8,-1,9,10"), [7, 8, 9]);
}

#[test]
fn parse_rejects_out_of_range() {
    assert_eq!(parse_scores("4294967296,4294967295"), [4294967295, 0, 0]);
}

#[test]
fn save_then_parse() {
    let text = save_scores(&[1234, 0, 4294967295]);
    assert_eq!(text, "1234,0,4294967295");
    assert_eq!(parse_scores(&text), [1234, 0, 4294967295]);
}

#[test]
fn load_missing_record() {
    assert_eq!(load_scores(None), [0, 0, 0]);
    assert_eq!(load_scores(Some("5,4,3")), [5, 4, 3]);
}

#[test]
fn parse_trims_unicode_whitespace() {
    assert_eq!(parse_scores(" 5\u{a0}"), [5, 0, 0]);
    assert_eq!(parse_scores("\u{3000}12\u{2029},\u{85}7\u{1680}, \u{2003}9\t"), [12, 7, 9]);
    assert_eq!(parse_scores("5\u{200b}"), [0, 0, 0]);
}
