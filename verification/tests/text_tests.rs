use pulse::lex::lex_less_chars;
use pulse::text::{append_decimal, append_padded, chars_of, decimal_string, truncate_name};

#[test]
fn truncate_name_keeps_short_names() {
    assert_eq!(truncate_name("firefox", 18), "firefox");
}

#[test]
fn truncate_name_keeps_name_of_exact_width() {
    let name = "abcdefghijklmnopqr";
    assert_eq!(name.chars().count(), 18);
    assert_eq!(truncate_name(name, 18), name);
}

#[test]
fn truncate_name_cuts_long_names() {
    let res = truncate_name("abcdefghijklmnopqrstuvwxyz", 18);
    assert_eq!(res, "abcdefghijklmnopq…");
    assert_eq!(res.chars().count(), 18);
}

#[test]
fn truncate_name_counts_characters_not_bytes() {
    assert_eq!(truncate_name("ééééé", 5), "ééééé");
    assert_eq!(truncate_name("éééééé", 5), "éééé…");
}

#[test]
fn truncate_name_width_one() {
    assert_eq!(truncate_name("ab", 1), "…");
    assert_eq!(truncate_name("a", 1), "a");
}

#[test]
fn truncate_name_width_zero_empty_name() {
    assert_eq!(truncate_name("", 0), "");
}

#[test]
fn decimal_string_values() {
    assert_eq!(decimal_string(0), "0");
    assert_eq!(decimal_string(7), "7");
    assert_eq!(decimal_string(10), "10");
    assert_eq!(decimal_string(4096), "4096");
    assert_eq!(decimal_string(u64::MAX), u64::MAX.to_string());
}

#[test]
fn append_decimal_extends() {
    let mut s = String::from("pid=");
    append_decimal(&mut s, 1234);
    assert_eq!(s, "pid=1234");
}

#[test]
fn append_padded_pads_and_keeps_long() {
    let mut s = String::new();
    append_padded(&mut s, "ab", 5);
    assert_eq!(s, "ab   ");
    let mut t = String::new();
    append_padded(&mut t, "abcdef", 3);
    assert_eq!(t, "abcdef");
    let mut u = String::new();
    append_padded(&mut u, "é", 3);
    assert_eq!(u, format!("{: <3}", "é"));
}

#[test]
fn chars_of_lists_characters() {
    assert_eq!(chars_of("aé…"), vec!['a', 'é', '…']);
    assert_eq!(chars_of(""), Vec::<char>::new());
}

#[test]
fn lex_less_matches_string_order() {
    let pairs = [("a", "b"), ("abc", "abd"), ("ab", "abc"), ("abc", "ab"), ("", "a"), ("", ""), ("Z", "a"), ("é", "z"), ("same", "same")];
    for (x, y) in pairs.iter() {
        let a = chars_of(x);
        let b = chars_of(y);
        assert_eq!(lex_less_chars(&a, &b), x < y, "{} < {}", x, y);
    }
}

#[test]
fn truncated_names_fit_their_field() {
    for len in 0..30 {
        let name: String = std::iter::repeat('x').take(len).collect();
        assert!(truncate_name(&name, 18).chars().count() <= 18);
    }
}

#[test]
fn decimal_reads_back() {
    for n in [0u64, 9, 10, 99, 100, 65535, 4294967295] {
        assert_eq!(decimal_string(n).parse::<u64>().unwrap(), n);
    }
}
