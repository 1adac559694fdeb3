use waybackrust::orchestrate::{concat_in_order, join_with_newlines};
use waybackrust::query::{listing_query_url, robots_url, snapshot_content_url, snapshot_query_url};

#[test]
fn listing_query_without_subdomains() {
    assert_eq!(
        listing_query_url("example.com", false),
        "http://web.archive.org/cdx/search/cdx?url=example.com%2F*&output=text&fl=original&collapse=urlkey"
    );
}

#[test]
fn listing_query_with_subdomains() {
    assert_eq!(
        listing_query_url("example.com", true),
        "http://web.archive.org/cdx/search/cdx?url=*.example.com%2F*&output=text&fl=original&collapse=urlkey"
    );
}

#[test]
fn snapshot_query_selects_successful_digest_collapsed_captures() {
    assert_eq!(
        snapshot_query_url("example.com/robots.txt"),
        "https://web.archive.org/cdx/search/cdx?url=example.com/robots.txt&output=text&fl=timestamp,original&filter=statuscode:200&collapse=digest"
    );
}

#[test]
fn snapshot_content_replay_url() {
    assert_eq!(
        snapshot_content_url("20200101000000", "http://example.com/x"),
        "https://web.archive.org/web/20200101000000/http://example.com/x"
    );
}

#[test]
fn robots_target_url() {
    assert_eq!(robots_url("example.com"), "example.com/robots.txt");
}

#[test]
fn outputs_join_in_launch_order() {
    let outputs = vec!["first\n".to_string(), "second\n".to_string(), "third\n".to_string()];
    assert_eq!(concat_in_order(&outputs), "first\nsecond\nthird\n");
    assert_eq!(concat_in_order(&Vec::new()), "");
}

#[test]
fn urls_join_with_single_newlines() {
    let urls = vec!["a".to_string(), "b".to_string(), "c".to_string()];
    assert_eq!(join_with_newlines(&urls), "a\nb\nc");
    assert_eq!(join_with_newlines(&vec!["only".to_string()]), "only");
    assert_eq!(join_with_newlines(&Vec::new()), "");
}
