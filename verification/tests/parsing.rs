use waybackrust::records::parse_snapshot_lines;
use waybackrust::text::{parse_u16, split_lines, split_whitespace_tokens};
use waybackrust::PipelineError;

#[test]
fn snapshot_two_records() {
    let lines = vec!["20200101000000 http://a.com/x".to_string(), "20210101000000 http://a.com/y".to_string()];
    let m = parse_snapshot_lines(&lines).unwrap();
    assert_eq!(m.len(), 2);
    assert_eq!(m.get(0).timestamp, "20200101000000");
    assert_eq!(m.get(0).original_url, "http://a.com/x");
    assert_eq!(m.get(1).timestamp, "20210101000000");
    assert_eq!(m.get(1).original_url, "http://a.com/y");
}

#[test]
fn snapshot_duplicate_timestamp_keeps_last() {
    let lines = vec![
        "20200101000000 http://a.com/first".to_string(),
        "20200101000000 http://a.com/second".to_string(),
    ];
    let m = parse_snapshot_lines(&lines).unwrap();
    assert_eq!(m.len(), 1);
    assert_eq!(m.get(0).timestamp, "20200101000000");
    assert_eq!(m.get(0).original_url, "http://a.com/second");
}

#[test]
fn malformed_line_fails_parse() {
    let lines = vec!["20200101000000 http://a.com/x".to_string(), "onlyonetoken".to_string()];
    match parse_snapshot_lines(&lines) {
        Err(PipelineError::Parse(bad)) => assert_eq!(bad, "onlyonetoken"),
        _ => panic!("a malformed line must abort the listing with a parse error"),
    }
}

#[test]
fn three_tokens_is_malformed_too() {
    let lines = vec!["a b c".to_string()];
    assert!(parse_snapshot_lines(&lines).is_err());
}

#[test]
fn empty_listing_gives_empty_map() {
    let lines: Vec<String> = Vec::new();
    let m = parse_snapshot_lines(&lines).unwrap();
    assert_eq!(m.len(), 0);
}

#[test]
fn split_lines_basic() {
    assert_eq!(split_lines("a\nb\nc"), vec!["a", "b", "c"]);
    assert_eq!(split_lines("a\r\nb\n"), vec!["a", "b"]);
    assert_eq!(split_lines(""), Vec::<String>::new());
    assert_eq!(split_lines("\n"), vec![""]);
    assert_eq!(split_lines("last"), vec!["last"]);
}

#[test]
fn whitespace_tokens_basic() {
    assert_eq!(split_whitespace_tokens("  a \t b  "), vec!["a", "b"]);
    assert_eq!(split_whitespace_tokens("one"), vec!["one"]);
    assert_eq!(split_whitespace_tokens("   "), Vec::<String>::new());
}

#[test]
fn parse_u16_accepts_plain_decimals() {
    assert_eq!(parse_u16("200"), Some(200));
    assert_eq!(parse_u16("0"), Some(0));
    assert_eq!(parse_u16("007"), Some(7));
    assert_eq!(parse_u16("65535"), Some(65535));
}

#[test]
fn parse_u16_rejects_bad_tokens() {
    assert_eq!(parse_u16(""), None);
    assert_eq!(parse_u16("abc"), None);
    assert_eq!(parse_u16("12a"), None);
    assert_eq!(parse_u16("65536"), None);
    assert_eq!(parse_u16("-1"), None);
    assert_eq!(parse_u16("999999999999"), None);
}
