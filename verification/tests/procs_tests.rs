use chrono::TimeZone;
use pulse::procs::{
    CHRONO_MAX_SECS, CHRONO_MIN_SECS,
    cpu_time_text, first_index, has_parent, last_index, name_of, parent_of, pid_named, resolve_pid,
    start_time_text, user_label, PidLookupError, ProcEntry,
};

fn entry(pid: u32, name: Option<&str>, parent: Option<u32>) -> ProcEntry {
    ProcEntry { pid, name: name.map(|n| n.to_string()), parent }
}

fn listing() -> Vec<ProcEntry> {
    vec![
        entry(1, Some("init"), None),
        entry(50, Some("sshd"), Some(1)),
        entry(60, None, Some(50)),
        entry(70, Some("sshd"), Some(50)),
        entry(80, Some("bash"), Some(70)),
    ]
}

#[test]
fn first_and_last_index() {
    let pids = vec![3, 5, 3, 9];
    assert_eq!(first_index(&pids, 3), Some(0));
    assert_eq!(last_index(&pids, 3), Some(2));
    assert_eq!(first_index(&pids, 9), Some(3));
    assert_eq!(first_index(&pids, 4), None);
    assert_eq!(last_index(&pids, 4), None);
}

#[test]
fn name_of_cases() {
    let l = listing();
    assert_eq!(name_of(&l, 50), "sshd");
    assert_eq!(name_of(&l, 60), "N/A");
    assert_eq!(name_of(&l, 999), "N/A");
}

#[test]
fn has_parent_cases() {
    let l = listing();
    assert!(has_parent(&l, 80));
    assert!(has_parent(&l, 50));
    // listed without a parent
    assert!(!has_parent(&l, 1));
    // not listed
    assert!(!has_parent(&l, 81));
}

#[test]
fn parent_of_gives_the_parent_or_the_process() {
    let l = listing();
    assert_eq!(parent_of(&l, 80), Some(70));
    assert_eq!(parent_of(&l, 50), Some(1));
    assert_eq!(parent_of(&l, 60), Some(50));
    // no parent known: the process stands for itself
    assert_eq!(parent_of(&l, 1), Some(1));
    // not listed: the process stands for itself
    assert_eq!(parent_of(&l, 5), Some(5));
}

#[test]
fn pid_named_takes_last_match() {
    let l = listing();
    assert_eq!(pid_named(&l, &"sshd".to_string()), Some(70));
    assert_eq!(pid_named(&l, &"init".to_string()), Some(1));
    assert_eq!(pid_named(&l, &"nginx".to_string()), None);
}

#[test]
fn resolve_pid_results() {
    let l = listing();
    // the last process named sshd
    assert_eq!(resolve_pid(&l, &"sshd".to_string()), Ok(70));
    assert_eq!(resolve_pid(&l, &"bash".to_string()), Ok(80));
    assert_eq!(resolve_pid(&l, &"nginx".to_string()), Err(PidLookupError::NoProcess));
    let l2 = vec![entry(1, Some("init"), None), entry(2, Some("bash"), Some(1))];
    assert_eq!(resolve_pid(&l2, &"bash".to_string()), Ok(2));
    assert_eq!(resolve_pid(&l2, &"init".to_string()), Ok(1));
}

fn chrono_text(secs: i64) -> Option<String> {
    chrono::Local
        .timestamp_opt(secs, 0)
        .single()
        .map(|dt| dt.format("%Y-%m-%d %H:%M:%S").to_string())
}

#[test]
fn start_time_text_shape() {
    let t = start_time_text(1_700_000_000).expect("a local time");
    let c: Vec<char> = t.chars().collect();
    let n = c.len();
    assert!(n >= 19);
    assert_eq!((c[n - 15], c[n - 12], c[n - 9], c[n - 6], c[n - 3]), ('-', '-', ' ', ':', ':'));
    assert!(t.starts_with("2023-11-1"));
}

#[test]
fn start_time_text_renders_the_given_instant() {
    for secs in [0u64, 86_399, 1_000_000_000, 1_700_000_000] {
        assert_eq!(start_time_text(secs), chrono_text(secs as i64));
    }
    assert_ne!(start_time_text(1_000_000_000), start_time_text(0));
}

#[test]
fn start_time_text_range() {
    assert!(start_time_text(CHRONO_MAX_SECS as u64).is_some());
    assert!(start_time_text((CHRONO_MAX_SECS + 1) as u64).is_none());
    assert!(start_time_text(CHRONO_MIN_SECS as u64).is_some());
    assert!(start_time_text((CHRONO_MIN_SECS - 1) as u64).is_none());
    // a count beyond i64::MAX wraps to a negative one, far out of range
    assert!(start_time_text(u64::MAX / 2 + 1).is_none());
    assert_eq!(chrono_text(CHRONO_MIN_SECS).is_some(), true);
    assert_eq!(chrono_text(CHRONO_MIN_SECS - 1), None);
}

#[test]
fn cpu_time_text_values() {
    assert_eq!(cpu_time_text(0, 0), "00:00:00");
    assert_eq!(cpu_time_text(3600, 61), "01:01:01");
    assert_eq!(cpu_time_text(359999, 1), "100:00:00");
    let total = 98765u64;
    assert_eq!(cpu_time_text(total, 0), format!("{:02}:{:02}:{:02}", total / 3600, (total % 3600) / 60, total % 60));
}

#[test]
fn user_label_cases() {
    assert_eq!(user_label(Some("alice".to_string()), 1000), "alice");
    assert_eq!(user_label(None, 1000), "1000");
}
