use waybackrust::filter::{ext_kept, filter_by_extension, get_path, select_urls, status_kept};

#[test]
fn path_of_parsable_url() {
    assert_eq!(get_path("https://example.com/api/versions?page=2"), "/api/versions");
    assert_eq!(get_path("http://example.com/data.json"), "/data.json");
}

#[test]
fn path_of_unparsable_url_is_empty() {
    // the documented quirk: no path, so no allow suffix ever matches and
    // no deny suffix ever matches either
    assert_eq!(get_path("not a url at all"), "");
    let allow = vec![".json".to_string()];
    let deny: Vec<String> = Vec::new();
    assert!(!ext_kept("not a url at all", &allow, &deny));
    let deny = vec![".json".to_string()];
    let allow: Vec<String> = Vec::new();
    assert!(ext_kept("not a url at all", &allow, &deny));
}

#[test]
fn extension_allow_is_exclusive() {
    let urls = vec![
        "http://x.com/a.json".to_string(),
        "http://x.com/b.png".to_string(),
    ];
    let allow = vec![".json".to_string()];
    let deny = vec![".png".to_string()];
    let kept = filter_by_extension(urls, &allow, &deny);
    assert_eq!(kept, vec!["http://x.com/a.json".to_string()]);
}

#[test]
fn extension_allow_wins_over_deny() {
    // the same suffix on both lists: the allow list decides, the deny
    // list is ignored
    let urls = vec!["http://x.com/a.json".to_string()];
    let allow = vec![".json".to_string()];
    let deny = vec![".json".to_string()];
    let kept = filter_by_extension(urls, &allow, &deny);
    assert_eq!(kept, vec!["http://x.com/a.json".to_string()]);
}

#[test]
fn extension_deny_applies_when_allow_empty() {
    let urls = vec![
        "http://x.com/a.json".to_string(),
        "http://x.com/b.png".to_string(),
    ];
    let allow: Vec<String> = Vec::new();
    let deny = vec![".png".to_string()];
    let kept = filter_by_extension(urls, &allow, &deny);
    assert_eq!(kept, vec!["http://x.com/a.json".to_string()]);
}

#[test]
fn extension_both_empty_passes_everything() {
    let urls = vec![
        "http://x.com/a.json".to_string(),
        "http://x.com/b.png".to_string(),
    ];
    let allow: Vec<String> = Vec::new();
    let deny: Vec<String> = Vec::new();
    let kept = filter_by_extension(urls.clone(), &allow, &deny);
    assert_eq!(kept, urls);
}

#[test]
fn select_urls_splits_and_filters_the_index_response() {
    let response = "http://x.com/a.json\nhttp://x.com/b.png\nhttp://x.com/c.json\n";
    let allow: Vec<String> = Vec::new();
    let deny = vec![".png".to_string()];
    let kept = select_urls(response, &allow, &deny);
    assert_eq!(
        kept,
        vec!["http://x.com/a.json".to_string(), "http://x.com/c.json".to_string()]
    );
}

#[test]
fn status_allow_wins_over_deny() {
    // a status on both lists is kept: allow wins, deny is ignored
    let allow = vec![200u16];
    let deny = vec![200u16];
    assert!(status_kept(200, &allow, &deny));
    assert!(!status_kept(404, &allow, &deny));
}

#[test]
fn status_deny_applies_when_allow_empty() {
    let allow: Vec<u16> = Vec::new();
    let deny = vec![404u16];
    assert!(!status_kept(404, &allow, &deny));
    assert!(status_kept(200, &allow, &deny));
}

#[test]
fn status_both_empty_keeps_everything() {
    let allow: Vec<u16> = Vec::new();
    let deny: Vec<u16> = Vec::new();
    assert!(status_kept(200, &allow, &deny));
    assert!(status_kept(500, &allow, &deny));
}
