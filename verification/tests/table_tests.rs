use pulse::render::{cpu_color, header_line, mem_color, row_line, Color, CPU_RED_FROM, CPU_YELLOW_FROM, MEM_YELLOW_ABOVE, color_text};
use pulse::table::{is_shown_name, select_rows, sort_rows, sorted_order, visible_rows, Order, ProcessRow, SortBy};

fn key(x: f64) -> u64 {
    let bits = x.to_bits();
    if bits >> 63 == 0 {
        bits | (1u64 << 63)
    } else {
        !bits
    }
}

fn row(pid: u32, name: &str, cpu: f64, mem: f64) -> ProcessRow {
    ProcessRow { pid, name: name.to_string(), cpu: key(cpu), mem: key(mem), ram_percent: key(mem / 10.0), io: key(0.0) }
}

fn pids(rows: &[ProcessRow]) -> Vec<u32> {
    rows.iter().map(|r| r.pid).collect()
}

fn sample() -> Vec<ProcessRow> {
    vec![
        row(30, "zsh", 1.5, 12.0),
        row(10, "firefox", 55.0, 900.0),
        row(20, "Xorg", 12.0, 300.0),
        row(40, "bash", 1.5, 4.0),
        row(25, "N/A", 99.0, 1.0),
    ]
}

#[test]
fn keys_follow_float_order() {
    let xs = [0.0, 0.05, 1.0, 19.99, 20.0, 49.9, 50.0, 100.0, 1e9];
    for w in xs.windows(2) {
        assert!(key(w[0]) < key(w[1]));
    }
    assert_eq!(key(50.0), CPU_RED_FROM);
    assert_eq!(key(20.0), CPU_YELLOW_FROM);
    assert_eq!(key(100.0), MEM_YELLOW_ABOVE);
}

#[test]
fn sort_by_pid_both_directions() {
    let rows = sample();
    assert_eq!(pids(&sort_rows(&rows, SortBy::Pid, Order::Asc)), vec![10, 20, 25, 30, 40]);
    assert_eq!(pids(&sort_rows(&rows, SortBy::Pid, Order::Desc)), vec![40, 30, 25, 20, 10]);
}

#[test]
fn sort_by_name_uses_string_order() {
    let rows = sample();
    // uppercase letters sort before lowercase ones, as `String::cmp` orders them
    assert_eq!(pids(&sort_rows(&rows, SortBy::Name, Order::Asc)), vec![25, 20, 40, 10, 30]);
    assert_eq!(pids(&sort_rows(&rows, SortBy::Name, Order::Desc)), vec![30, 10, 40, 20, 25]);
}

#[test]
fn sort_by_cpu_is_stable() {
    let rows = sample();
    // 30 and 40 tie on CPU and keep their input order in both directions
    assert_eq!(pids(&sort_rows(&rows, SortBy::Cpu, Order::Asc)), vec![30, 40, 20, 10, 25]);
    assert_eq!(pids(&sort_rows(&rows, SortBy::Cpu, Order::Desc)), vec![25, 10, 20, 30, 40]);
}

#[test]
fn sort_by_ram_and_percent() {
    let rows = sample();
    assert_eq!(pids(&sort_rows(&rows, SortBy::Ram, Order::Asc)), vec![25, 40, 30, 20, 10]);
    assert_eq!(pids(&sort_rows(&rows, SortBy::RamPercent, Order::Desc)), vec![10, 20, 30, 40, 25]);
}

#[test]
fn sort_matches_std_stable_sort() {
    let rows = vec![
        row(5, "b", 3.0, 1.0),
        row(3, "a", 1.0, 2.0),
        row(5, "a", 3.0, 2.0),
        row(1, "c", 2.0, 1.0),
        row(3, "b", 1.0, 3.0),
    ];
    let mut expect: Vec<u32> = rows.iter().map(|r| r.pid).collect();
    expect.sort_by_key(|p| std::cmp::Reverse(*p));
    assert_eq!(pids(&sort_rows(&rows, SortBy::Pid, Order::Desc)), expect);
    let mut by_name: Vec<(String, u32, u64)> = rows.iter().map(|r| (r.name.clone(), r.pid, r.mem)).collect();
    by_name.sort_by(|a, b| a.0.cmp(&b.0));
    let got: Vec<(String, u32, u64)> = sort_rows(&rows, SortBy::Name, Order::Asc).iter().map(|r| (r.name.clone(), r.pid, r.mem)).collect();
    assert_eq!(got, by_name);
}

#[test]
fn sorted_order_gives_indices() {
    let rows = sample();
    assert_eq!(sorted_order(&rows, SortBy::Pid, Order::Asc), vec![1, 2, 4, 0, 3]);
    assert_eq!(sorted_order(&Vec::new(), SortBy::Name, Order::Desc), Vec::<usize>::new());
}

#[test]
fn visible_rows_drop_unnamed() {
    let rows = sample();
    assert_eq!(pids(&visible_rows(&rows)), vec![30, 10, 20, 40]);
}

#[test]
fn select_rows_filters_sorts_and_limits() {
    let rows = sample();
    assert_eq!(pids(&select_rows(&rows, SortBy::Cpu, Order::Desc, 2)), vec![10, 20]);
    assert_eq!(pids(&select_rows(&rows, SortBy::Pid, Order::Asc, 30)), vec![10, 20, 30, 40]);
    assert_eq!(pids(&select_rows(&rows, SortBy::Pid, Order::Asc, 0)), Vec::<u32>::new());
}

#[test]
fn duplicate_copies_row() {
    let r = row(7, "cat", 1.0, 2.0);
    let d = r.duplicate();
    assert_eq!((d.pid, d.name.as_str(), d.cpu, d.mem), (7, "cat", r.cpu, r.mem));
}

#[test]
fn colors_follow_thresholds() {
    assert_eq!(cpu_color(key(0.0)), Color::Green);
    assert_eq!(cpu_color(key(19.9)), Color::Green);
    assert_eq!(cpu_color(key(20.0)), Color::Yellow);
    assert_eq!(cpu_color(key(49.9)), Color::Yellow);
    assert_eq!(cpu_color(key(50.0)), Color::Red);
    assert_eq!(cpu_color(key(300.0)), Color::Red);
    assert_eq!(mem_color(key(100.0)), Color::Reset);
    assert_eq!(mem_color(key(100.1)), Color::Yellow);
    assert_eq!(color_text(Color::Red), "\x1b[31m");
    assert_eq!(color_text(Color::Reset), "\x1b[0m");
}

#[test]
fn header_matches_format() {
    assert_eq!(
        header_line(false),
        format!("{: <6} {: <18} {: <8} {: <10} {: <8}", "PID", "NAME", "CPU%", "RAM MB", "RAM %")
    );
    assert_eq!(
        header_line(true),
        format!("{: <6} {: <18} {: <8} {: <10} {: <8} {: <10}", "PID", "NAME", "CPU%", "RAM MB", "RAM %", "IO (B/s)")
    );
}

#[test]
fn row_line_matches_format() {
    let r = row(1234, "a-very-long-process-name", 55.25, 150.0);
    let line = row_line(&r, "55.2", "150.0", "3.1", "0.0", false);
    let expect = format!(
        "{: <6} {: <18} {}{: <8}{} {}{: <10}{} {: <8}",
        1234, "a-very-long-proce…", "\x1b[31m", "55.2", "\x1b[0m", "\x1b[33m", "150.0", "\x1b[0m", "3.1"
    );
    assert_eq!(line, expect);
    let r2 = row(7, "sh", 0.5, 2.0);
    let line2 = row_line(&r2, "0.5", "2.0", "0.1", "0.0", true);
    let expect2 = format!(
        "{: <6} {: <18} {}{: <8}{} {}{: <10}{} {: <8} {: <10}",
        7, "sh", "\x1b[32m", "0.5", "\x1b[0m", "\x1b[0m", "2.0", "\x1b[0m", "0.1", "0.0"
    );
    assert_eq!(line2, expect2);
}

#[test]
fn descending_reverses_ascending_without_ties() {
    let rows = vec![row(3, "c", 5.0, 1.0), row(1, "a", 7.0, 2.0), row(2, "b", 6.0, 3.0)];
    let mut asc = pids(&sort_rows(&rows, SortBy::Cpu, Order::Asc));
    asc.reverse();
    assert_eq!(pids(&sort_rows(&rows, SortBy::Cpu, Order::Desc)), asc);
}

#[test]
fn descending_is_not_reversed_ascending_with_ties() {
    let rows = vec![row(1, "a", 5.0, 1.0), row(2, "b", 5.0, 2.0)];
    assert_eq!(pids(&sort_rows(&rows, SortBy::Cpu, Order::Asc)), vec![1, 2]);
    assert_eq!(pids(&sort_rows(&rows, SortBy::Cpu, Order::Desc)), vec![1, 2]);
}

#[test]
fn resorting_changes_nothing() {
    let rows = sample();
    let once = sort_rows(&rows, SortBy::Name, Order::Desc);
    let twice = sort_rows(&once, SortBy::Name, Order::Desc);
    assert_eq!(pids(&once), pids(&twice));
}

#[test]
fn sorting_keeps_the_rows() {
    let rows = sample();
    let mut before = pids(&rows);
    let mut after = pids(&sort_rows(&rows, SortBy::Ram, Order::Desc));
    before.sort();
    after.sort();
    assert_eq!(before, after);
}

#[test]
fn selected_rows_are_named_and_limited() {
    let rows = sample();
    let shown = select_rows(&rows, SortBy::Cpu, Order::Desc, 10);
    assert_eq!(shown.len(), 4);
    assert!(shown.iter().all(|r| r.name != "N/A"));
}

#[test]
fn shown_names() {
    assert!(is_shown_name(&"bash".to_string()));
    assert!(!is_shown_name(&"N/A".to_string()));
    assert!(is_shown_name(&"n/a".to_string()));
}

#[test]
fn nan_is_coloured_as_below_every_threshold() {
    assert!(!(f64::NAN >= 50.0) && !(f64::NAN >= 20.0) && !(f64::NAN > 100.0));
    assert_eq!(cpu_color(key(f64::NAN)), Color::Green);
    assert_eq!(cpu_color(key(-f64::NAN)), Color::Green);
    assert_eq!(mem_color(key(f64::NAN)), Color::Reset);
    assert_eq!(mem_color(key(-f64::NAN)), Color::Reset);
    assert_eq!(cpu_color(key(f64::INFINITY)), Color::Red);
    assert_eq!(mem_color(key(f64::INFINITY)), Color::Yellow);
}

#[test]
fn negative_zero_ties_with_zero() {
    let rows = vec![row(1, "a", 0.0, 1.0), row(2, "b", -0.0, 1.0)];
    assert_eq!(pids(&sort_rows(&rows, SortBy::Cpu, Order::Asc)), vec![1, 2]);
    assert_eq!(pids(&sort_rows(&rows, SortBy::Cpu, Order::Desc)), vec![1, 2]);
}
