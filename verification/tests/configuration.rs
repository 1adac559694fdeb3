use waybackrust::config::{
    both_lists_warning, delay_without_check_warning, effective_workers, parse_code_list,
    parse_ext_list, worker_override_warning,
};
use waybackrust::PipelineError;

#[test]
fn workers_default_to_twenty_four() {
    assert_eq!(effective_workers(0, None), 24);
}

#[test]
fn delay_forces_a_single_worker() {
    // an explicit worker count is silently overridden, but a warning is
    // surfaced
    assert_eq!(effective_workers(100, Some(8)), 1);
    assert_eq!(effective_workers(100, None), 1);
    assert!(worker_override_warning(100, Some(8)));
    assert!(!worker_override_warning(0, Some(8)));
    assert!(!worker_override_warning(100, None));
}

#[test]
fn requested_workers_used_without_delay() {
    assert_eq!(effective_workers(0, Some(8)), 8);
    assert_eq!(effective_workers(0, Some(0)), 1);
}

#[test]
fn delay_without_check_is_warned() {
    assert!(delay_without_check_warning(100, false));
    assert!(!delay_without_check_warning(100, true));
    assert!(!delay_without_check_warning(0, false));
}

#[test]
fn both_extension_lists_are_warned() {
    let allow = vec![".json".to_string()];
    let deny = vec![".png".to_string()];
    assert!(both_lists_warning(&allow, &deny));
    assert!(!both_lists_warning(&Vec::new(), &deny));
    assert!(!both_lists_warning(&allow, &Vec::new()));
}

#[test]
fn ext_list_entries_are_dotted() {
    assert_eq!(parse_ext_list("png,jpg,txt"), vec![".png", ".jpg", ".txt"]);
    assert_eq!(parse_ext_list("json"), vec![".json"]);
}

#[test]
fn code_list_parses_numbers() {
    assert_eq!(parse_code_list("404,403,500").unwrap(), vec![404, 403, 500]);
    assert_eq!(parse_code_list("200").unwrap(), vec![200]);
}

#[test]
fn code_list_rejects_bad_tokens() {
    match parse_code_list("404,abc,500") {
        Err(PipelineError::Config(tok)) => assert_eq!(tok, "abc"),
        _ => panic!("a non-numeric status code must be a configuration error"),
    }
    match parse_code_list("70000") {
        Err(PipelineError::Config(tok)) => assert_eq!(tok, "70000"),
        _ => panic!("a status code out of range must be a configuration error"),
    }
}
