//! Character-level text helpers: truncation, padding and decimal rendering.
use vstd::prelude::*;

verus! {

/// What `truncate_name` yields: the name itself when it has at most `max_len`
/// characters, otherwise its first `max_len - 1` characters followed by an ellipsis.
pub open spec fn truncated(name: Seq<char>, max_len: nat) -> Seq<char> {
    if name.len() > max_len {
        name.take(max_len - 1).push('…')
    } else {
        name
    }
}

/// Shortens `name` to at most `max_len` characters, marking a cut with `…`.
pub fn truncate_name(name: &str, max_len: usize) -> (res: String)
    requires
        name@.len() > max_len ==> max_len >= 1,
    ensures
        res@ == truncated(name@, max_len as nat),
{
    let count = name.unicode_len();
    if count > max_len {
        let head = name.substring_char(0, max_len - 1);
        let mut s = String::from_str(head);
        proof {
            reveal_strlit("…");
        }
        s.append("…");
        assert(s@ =~= name@.take(max_len - 1).push('…'));
        s
    } else {
        String::from_str(name)
    }
}

} // verus!

verus! {

/// The characters of `s`, in order.
pub fn chars_of(s: &str) -> (res: Vec<char>)
    ensures
        res@ == s@,
{
    let mut out: Vec<char> = Vec::new();
    for c in it: s.chars()
        invariant
            out@ == it.seq().take(it.index() as int),
            it.seq() == s@,
    {
        out.push(c);
    }
    out
}

} // verus!

verus! {

/// The character of the decimal digit `d`.
pub open spec fn digit_char(d: nat) -> char {
    if d == 0 {
        '0'
    } else if d == 1 {
        '1'
    } else if d == 2 {
        '2'
    } else if d == 3 {
        '3'
    } else if d == 4 {
        '4'
    } else if d == 5 {
        '5'
    } else if d == 6 {
        '6'
    } else if d == 7 {
        '7'
    } else if d == 8 {
        '8'
    } else {
        '9'
    }
}

/// The decimal notation of `n`, without leading zeros (`0` for zero).
pub open spec fn decimal(n: nat) -> Seq<char>
    decreases n,
{
    if n < 10 {
        seq![digit_char(n)]
    } else {
        decimal(n / 10).push(digit_char(n % 10))
    }
}

/// The one-character text of the digit `d`.
fn digit_text(d: u64) -> (res: &'static str)
    requires
        d < 10,
    ensures
        res@ == seq![digit_char(d as nat)],
{
    proof {
        reveal_strlit("0");
        reveal_strlit("1");
        reveal_strlit("2");
        reveal_strlit("3");
        reveal_strlit("4");
        reveal_strlit("5");
        reveal_strlit("6");
        reveal_strlit("7");
        reveal_strlit("8");
        reveal_strlit("9");
    }
    match d {
        0 => "0",
        1 => "1",
        2 => "2",
        3 => "3",
        4 => "4",
        5 => "5",
        6 => "6",
        7 => "7",
        8 => "8",
        _ => "9",
    }
}

/// Appends the decimal notation of `n` to `s`.
pub fn append_decimal(s: &mut String, n: u64)
    ensures
        final(s)@ == old(s)@ + decimal(n as nat),
    decreases n,
{
    if n >= 10 {
        append_decimal(s, n / 10);
    }
    s.append(digit_text(n % 10));
    assert(final(s)@ =~= old(s)@ + decimal(n as nat)) by {
        if n >= 10 {
            assert(decimal(n as nat) == decimal((n / 10) as nat).push(digit_char((n % 10) as nat)));
        }
    }
}

/// The decimal notation of `n`, as `n.to_string()` writes it.
pub fn decimal_string(n: u64) -> (res: String)
    ensures
        res@ == decimal(n as nat),
{
    let mut s = String::new();
    append_decimal(&mut s, n);
    assert(s@ =~= decimal(n as nat));
    s
}

/// `n` spaces.
pub open spec fn spaces(n: nat) -> Seq<char> {
    Seq::new(n, |i: int| ' ')
}

/// `s` left-aligned in a field of `width` characters, as `format!("{: <width$}", s)`
/// writes it: spaces are added on the right up to `width`; a longer text is kept whole.
pub open spec fn pad_right(s: Seq<char>, width: nat) -> Seq<char> {
    if s.len() >= width {
        s
    } else {
        s + spaces((width - s.len()) as nat)
    }
}

/// Appends `s`, left-aligned in a field of `width` characters, to `out`.
pub fn append_padded(out: &mut String, s: &str, width: usize)
    ensures
        final(out)@ == old(out)@ + pad_right(s@, width as nat),
{
    out.append(s);
    let mut count = s.unicode_len();
    while count < width
        invariant
            count >= s@.len(),
            count <= width || count == s@.len(),
            out@ == old(out)@ + s@ + spaces((count - s@.len()) as nat),
        decreases width - count,
    {
        proof {
            reveal_strlit(" ");
        }
        out.append(" ");
        count = count + 1;
        assert(out@ =~= old(out)@ + s@ + spaces((count - s@.len()) as nat));
    }
    assert(out@ =~= old(out)@ + pad_right(s@, width as nat));
}

} // verus!

verus! {

/// A truncated name fits its field: it has at most `max_len` characters, and it
/// is the name itself or a prefix of it followed by `…`.
pub proof fn lemma_truncated_fits(name: Seq<char>, max_len: nat)
    requires
        max_len >= 1,
    ensures
        truncated(name, max_len).len() <= max_len,
        truncated(name, max_len) == name || (name.len() > max_len && truncated(name, max_len) == name.take(
            max_len - 1,
        ).push('…')),
{
}

/// A padded text is at least as wide as its field and starts with the text.
pub proof fn lemma_padded_width(s: Seq<char>, width: nat)
    ensures
        pad_right(s, width).len() >= width,
        pad_right(s, width).len() >= s.len(),
        pad_right(s, width).take(s.len() as int) == s,
{
    assert(pad_right(s, width).take(s.len() as int) =~= s);
}

} // verus!

verus! {

/// The value of a decimal digit character (`0` for any other character).
pub open spec fn digit_value(c: char) -> nat {
    if c == '1' {
        1
    } else if c == '2' {
        2
    } else if c == '3' {
        3
    } else if c == '4' {
        4
    } else if c == '5' {
        5
    } else if c == '6' {
        6
    } else if c == '7' {
        7
    } else if c == '8' {
        8
    } else if c == '9' {
        9
    } else {
        0
    }
}

/// The number a text of decimal digits stands for.
pub open spec fn decimal_value(s: Seq<char>) -> nat
    decreases s.len(),
{
    if s.len() == 0 {
        0
    } else {
        decimal_value(s.drop_last()) * 10 + digit_value(s.last())
    }
}

/// A digit character reads back as its digit.
proof fn lemma_digit_round_trip(d: nat)
    requires
        d < 10,
    ensures
        digit_value(digit_char(d)) == d,
{
}

/// Reading back the decimal notation of `n` gives `n`, and the notation starts
/// with a zero only for zero itself.
pub proof fn lemma_decimal_round_trip(n: nat)
    ensures
        decimal_value(decimal(n)) == n,
        decimal(n).len() >= 1,
        decimal(n)[0] == '0' ==> n == 0,
    decreases n,
{
    lemma_digit_round_trip(n % 10);
    if n >= 10 {
        lemma_decimal_round_trip(n / 10);
        assert(decimal(n).drop_last() =~= decimal(n / 10));
        assert(decimal(n)[0] == decimal(n / 10)[0]);
        assert(decimal(n).last() == digit_char(n % 10));
        assert(decimal_value(decimal(n)) == decimal_value(decimal(n / 10)) * 10 + digit_value(digit_char(n % 10)));
        assert(n == (n / 10) * 10 + n % 10);
        assert(decimal_value(decimal(n)) == n);
    } else {
        assert(decimal(n).drop_last() =~= Seq::<char>::empty());
        assert(decimal_value(Seq::<char>::empty()) == 0);
        assert(decimal_value(decimal(n)) == decimal_value(decimal(n).drop_last()) * 10 + digit_value(decimal(n).last()));
        assert(n % 10 == n);
    }
}

} // verus!
