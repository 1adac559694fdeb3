use waybackrust::scheduler::{CheckOutcome, CheckResponse, UrlChecker};

fn ok_response(status: u16, text: &str) -> CheckOutcome {
    CheckOutcome::Response(CheckResponse {
        status,
        status_text: text.to_string(),
        location: None,
    })
}

#[test]
fn serial_mode_dispatches_one_at_a_time() {
    // delay > 0: strictly serial, even though three workers were asked for
    let urls = vec!["http://a".to_string(), "http://b".to_string(), "http://c".to_string()];
    let mut c = UrlChecker::new(urls, Vec::new(), Vec::new(), 250, Some(3));
    assert_eq!(c.start_next(), Some(0));
    // one fetch in flight: nothing else may start
    assert_eq!(c.start_next(), None);
    c.complete(0, ok_response(200, "200 OK"));
    assert_eq!(c.start_next(), Some(1));
    assert_eq!(c.start_next(), None);
    c.complete(1, ok_response(200, "200 OK"));
    assert_eq!(c.start_next(), Some(2));
    c.complete(2, ok_response(200, "200 OK"));
    assert!(c.done());
    assert_eq!(c.start_next(), None);
    let out = c.into_output();
    assert_eq!(out, "http://a 200 OK\nhttp://b 200 OK\nhttp://c 200 OK\n");
}

#[test]
fn serial_output_in_input_order_whatever_the_latency() {
    // the machine itself forbids overtaking: whichever URL would answer
    // fastest, the next fetch starts only after the previous completed,
    // so the lines stand in input order
    let urls = vec!["http://u1".to_string(), "http://u2".to_string(), "http://u3".to_string()];
    let mut c = UrlChecker::new(urls, Vec::new(), Vec::new(), 1, None);
    for i in 0..3usize {
        assert_eq!(c.start_next(), Some(i));
        assert_eq!(c.start_next(), None);
        c.complete(i, ok_response(200, "200 OK"));
    }
    assert_eq!(
        c.into_output(),
        "http://u1 200 OK\nhttp://u2 200 OK\nhttp://u3 200 OK\n"
    );
}

#[test]
fn parallel_output_is_a_permutation_of_the_same_line_set() {
    let urls = vec!["http://u1".to_string(), "http://u2".to_string(), "http://u3".to_string()];

    // first run: completions arrive in reverse
    let mut a = UrlChecker::new(urls.clone(), Vec::new(), Vec::new(), 0, Some(3));
    assert_eq!(a.start_next(), Some(0));
    assert_eq!(a.start_next(), Some(1));
    assert_eq!(a.start_next(), Some(2));
    a.complete(2, ok_response(200, "200 OK"));
    a.complete(1, ok_response(200, "200 OK"));
    a.complete(0, ok_response(200, "200 OK"));
    assert!(a.done());
    let out_a = a.into_output();

    // second run: completions arrive in input order
    let mut b = UrlChecker::new(urls, Vec::new(), Vec::new(), 0, Some(3));
    assert_eq!(b.start_next(), Some(0));
    assert_eq!(b.start_next(), Some(1));
    assert_eq!(b.start_next(), Some(2));
    b.complete(0, ok_response(200, "200 OK"));
    b.complete(1, ok_response(200, "200 OK"));
    b.complete(2, ok_response(200, "200 OK"));
    let out_b = b.into_output();

    assert_ne!(out_a, out_b);
    let mut lines_a: Vec<&str> = out_a.lines().collect();
    let mut lines_b: Vec<&str> = out_b.lines().collect();
    lines_a.sort();
    lines_b.sort();
    assert_eq!(lines_a, lines_b);
}

#[test]
fn parallel_width_bounds_in_flight_fetches() {
    let urls: Vec<String> = (0..5).map(|i| format!("http://u{}", i)).collect();
    let mut c = UrlChecker::new(urls, Vec::new(), Vec::new(), 0, Some(2));
    assert_eq!(c.start_next(), Some(0));
    assert_eq!(c.start_next(), Some(1));
    // the pool is full
    assert_eq!(c.start_next(), None);
    c.complete(1, ok_response(200, "200 OK"));
    assert_eq!(c.start_next(), Some(2));
    assert_eq!(c.start_next(), None);
}

#[test]
fn transport_failure_is_dropped_but_run_completes() {
    // one of five fetches fails: four lines come out, the run completes
    let urls: Vec<String> = (1..=5).map(|i| format!("http://u{}", i)).collect();
    let mut c = UrlChecker::new(urls, Vec::new(), Vec::new(), 0, Some(5));
    for i in 0..5usize {
        assert_eq!(c.start_next(), Some(i));
    }
    for i in 0..5usize {
        let outcome = if i == 2 {
            CheckOutcome::TransportFailure
        } else {
            ok_response(200, "200 OK")
        };
        let line = c.complete(i, outcome);
        assert_eq!(line.is_some(), i != 2);
    }
    assert!(c.done());
    let out = c.into_output();
    assert_eq!(out.lines().count(), 4);
    assert!(!out.contains("http://u3 "));
}

#[test]
fn redirect_line_carries_the_location() {
    let urls = vec!["http://old".to_string()];
    let mut c = UrlChecker::new(urls, Vec::new(), Vec::new(), 0, None);
    assert_eq!(c.start_next(), Some(0));
    let line = c.complete(
        0,
        CheckOutcome::Response(CheckResponse {
            status: 301,
            status_text: "301 Moved Permanently".to_string(),
            location: Some("http://new".to_string()),
        }),
    );
    assert_eq!(line.unwrap(), "http://old 301 Moved Permanently to http://new\n");
}

#[test]
fn redirect_without_location_shows_nothing_after_to() {
    let urls = vec!["http://old".to_string()];
    let mut c = UrlChecker::new(urls, Vec::new(), Vec::new(), 0, None);
    c.start_next();
    let line = c.complete(
        0,
        CheckOutcome::Response(CheckResponse {
            status: 302,
            status_text: "302 Found".to_string(),
            location: None,
        }),
    );
    assert_eq!(line.unwrap(), "http://old 302 Found to \n");
}

#[test]
fn status_filter_drops_denied_lines() {
    let urls = vec!["http://a".to_string(), "http://b".to_string()];
    let mut c = UrlChecker::new(urls, Vec::new(), vec![404], 0, None);
    c.start_next();
    c.start_next();
    let kept = c.complete(0, ok_response(200, "200 OK"));
    let dropped = c.complete(1, ok_response(404, "404 Not Found"));
    assert!(kept.is_some());
    assert!(dropped.is_none());
    assert_eq!(c.into_output(), "http://a 200 OK\n");
}

#[test]
fn status_filter_allow_list_is_exclusive() {
    let urls = vec!["http://a".to_string(), "http://b".to_string()];
    let mut c = UrlChecker::new(urls, vec![404], vec![404], 0, None);
    c.start_next();
    c.start_next();
    // 404 stands on both lists: the allow list wins and keeps it
    let kept = c.complete(0, ok_response(404, "404 Not Found"));
    let dropped = c.complete(1, ok_response(200, "200 OK"));
    assert!(kept.is_some());
    assert!(dropped.is_none());
}
