use waybackrust::aggregate::{
    collect_robot_paths, render_lines, robots_output, unify_content, FetchResult,
};

#[test]
fn unify_concatenates_in_fetch_order() {
    let results = vec![
        FetchResult::Body("AAA".to_string()),
        FetchResult::Body("BBB".to_string()),
    ];
    assert_eq!(unify_content(&results), "AAABBB");
}

#[test]
fn unify_keeps_duplicate_content() {
    // re-archived unchanged pages contribute their content again
    let results = vec![
        FetchResult::Body("X".to_string()),
        FetchResult::Body("X".to_string()),
        FetchResult::Body("X".to_string()),
    ];
    assert_eq!(unify_content(&results), "XXX");
}

#[test]
fn unify_failure_contributes_empty_content() {
    // one of five fetches fails: the four bodies still come out and the
    // aggregation completes
    let results = vec![
        FetchResult::Body("a".to_string()),
        FetchResult::Body("b".to_string()),
        FetchResult::TransportFailure,
        FetchResult::Body("c".to_string()),
        FetchResult::Body("d".to_string()),
    ];
    assert_eq!(unify_content(&results), "abcd");
}

#[test]
fn robots_paths_deduplicated_across_snapshots() {
    let results = vec![
        FetchResult::Body("Disallow: /admin\nAllow: /public".to_string()),
        FetchResult::Body("Disallow: /admin".to_string()),
    ];
    let paths = collect_robot_paths(&results);
    assert_eq!(paths, vec!["/admin".to_string(), "/public".to_string()]);
}

#[test]
fn robots_paths_ignore_unmarked_lines() {
    let results = vec![FetchResult::Body(
        "User-agent: *\nDisallow: /secret\nSitemap: /map.xml".to_string(),
    )];
    let paths = collect_robot_paths(&results);
    assert_eq!(paths, vec!["/secret".to_string()]);
}

#[test]
fn robots_marker_matches_unrelated_words_too() {
    // the `low:` marker is a cheap proxy and also catches words such as
    // "below:" — a known false positive preserved as observed behaviour
    let results = vec![FetchResult::Body("see below: nothing".to_string())];
    let paths = collect_robot_paths(&results);
    assert_eq!(paths, vec!["see below: nothing".to_string()]);
}

#[test]
fn robots_failure_contributes_no_paths() {
    let results = vec![
        FetchResult::TransportFailure,
        FetchResult::Body("Disallow: /a".to_string()),
    ];
    let paths = collect_robot_paths(&results);
    assert_eq!(paths, vec!["/a".to_string()]);
}

#[test]
fn robots_paths_are_trimmed() {
    let results = vec![FetchResult::Body("Disallow:   /spaced   ".to_string())];
    let paths = collect_robot_paths(&results);
    assert_eq!(paths, vec!["/spaced".to_string()]);
}

#[test]
fn robots_output_renders_the_deduplicated_paths() {
    let results = vec![
        FetchResult::Body("Disallow: /admin\nAllow: /public".to_string()),
        FetchResult::Body("Disallow: /admin".to_string()),
    ];
    assert_eq!(robots_output(&results), "/admin\n/public\n");
}

#[test]
fn render_lines_one_path_per_line() {
    let paths = vec!["/a".to_string(), "/b".to_string()];
    assert_eq!(render_lines(&paths), "/a\n/b\n");
    assert_eq!(render_lines(&Vec::new()), "");
}
