use pulse::select::{contains_chars, keep_owned, monitored_pids};
use pulse::text::chars_of;

fn procs() -> Vec<(u32, String)> {
    vec![
        (1, "systemd".to_string()),
        (42, "firefox".to_string()),
        (43, "Firefox-bin".to_string()),
        (77, "bash".to_string()),
        (90, "N/A".to_string()),
    ]
}

#[test]
fn no_filter_shows_everything() {
    assert_eq!(monitored_pids(&procs(), &vec![], &vec![]), vec![1, 42, 43, 77, 90]);
}

#[test]
fn name_filter_is_case_insensitive() {
    assert_eq!(monitored_pids(&procs(), &vec!["FIREFOX".to_string()], &vec![]), vec![42, 43]);
    assert_eq!(monitored_pids(&procs(), &vec!["fox-B".to_string()], &vec![]), vec![43]);
}

#[test]
fn pid_filter_keeps_listing_order() {
    assert_eq!(monitored_pids(&procs(), &vec![], &vec![77, 1]), vec![1, 77]);
}

#[test]
fn unknown_pid_is_dropped_but_counts_as_request() {
    assert_eq!(monitored_pids(&procs(), &vec![], &vec![5]), Vec::<u32>::new());
}

#[test]
fn name_without_match_shows_everything() {
    assert_eq!(monitored_pids(&procs(), &vec!["nginx".to_string()], &vec![]), vec![1, 42, 43, 77, 90]);
}

#[test]
fn name_and_pid_filters_combine() {
    assert_eq!(monitored_pids(&procs(), &vec!["bash".to_string()], &vec![1]), vec![1, 77]);
}

#[test]
fn contains_chars_finds_parts() {
    let h = chars_of("firefox");
    assert!(contains_chars(&h, &chars_of("fox")));
    assert!(contains_chars(&h, &chars_of("")));
    assert!(contains_chars(&h, &chars_of("firefox")));
    assert!(!contains_chars(&h, &chars_of("foxy")));
    assert!(!contains_chars(&chars_of(""), &chars_of("a")));
}

#[test]
fn requested_listed_pid_is_shown_and_only_listed_are() {
    let shown = monitored_pids(&procs(), &vec!["sys".to_string()], &vec![43, 1000]);
    assert_eq!(shown, vec![1, 43]);
}

#[test]
fn keep_owned_filters_by_user() {
    let owners = vec![(1, Some(0)), (42, Some(1000)), (43, None), (77, Some(1000))];
    assert_eq!(keep_owned(&vec![1, 42, 43, 77, 90], &owners, 1000), vec![42, 77]);
    assert_eq!(keep_owned(&vec![1, 42], &owners, 0), vec![1]);
    assert_eq!(keep_owned(&vec![43], &owners, 0), Vec::<u32>::new());
}
