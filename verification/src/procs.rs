//! Answers about processes from a listing of the system's processes.
//!
//! A listing holds one `ProcEntry` per process, in the order in which the
//! process collector walks them.
use vstd::prelude::*;
use crate::table::unnamed;
use crate::text::{append_decimal, decimal, decimal_string, decimal_value, digit_char, lemma_decimal_round_trip};

verus! {

/// What the monitor reads of one process.
pub struct ProcEntry {
    pub pid: u32,
    /// The process name, or `None` when it could not be read.
    pub name: Option<String>,
    /// The parent's PID, or `None` when there is no parent or it could not be read.
    pub parent: Option<u32>,
}

/// The first position of `pid` in the listing.
pub open spec fn first_position(entries: Seq<ProcEntry>, pid: u32) -> Option<int> {
    if exists|i: int| 0 <= i < entries.len() && (#[trigger] entries[i]).pid == pid {
        Some(choose|i: int| 0 <= i < entries.len() && entries[i].pid == pid
            && forall|j: int| 0 <= j < i ==> (#[trigger] entries[j]).pid != pid)
    } else {
        None
    }
}

/// The position of the first occurrence of `pid` in `pids`, or `None` when there
/// is none. `pids` lists the processes in the collector's order; thread count,
/// state, user, start time and CPU time of a process are read at this position.
pub fn first_index(pids: &Vec<u32>, pid: u32) -> (res: Option<usize>)
    ensures
        match res {
            Some(i) => i < pids.len() && pids@[i as int] == pid
                && forall|j: int| 0 <= j < i ==> #[trigger] pids@[j] != pid,
            None => !pids@.contains(pid),
        },
{
    for i in 0..pids.len()
        invariant
            forall|j: int| 0 <= j < i ==> #[trigger] pids@[j] != pid,
    {
        if pids[i] == pid {
            return Some(i);
        }
    }
    None
}

/// The position of the last occurrence of `pid` in `pids`, or `None` when there
/// is none. Memory and CPU use of a process are read at this position.
pub fn last_index(pids: &Vec<u32>, pid: u32) -> (res: Option<usize>)
    ensures
        match res {
            Some(i) => i < pids.len() && pids@[i as int] == pid
                && forall|j: int| i < j < pids.len() ==> #[trigger] pids@[j] != pid,
            None => !pids@.contains(pid),
        },
{
    let mut found: Option<usize> = None;
    for i in 0..pids.len()
        invariant
            match found {
                Some(k) => k < i && pids@[k as int] == pid
                    && forall|j: int| k < j < i ==> #[trigger] pids@[j] != pid,
                None => forall|j: int| 0 <= j < i ==> #[trigger] pids@[j] != pid,
            },
    {
        if pids[i] == pid {
            found = Some(i);
        }
    }
    found
}

/// The position of the first entry with `pid`.
fn first_entry(entries: &Vec<ProcEntry>, pid: u32) -> (res: Option<usize>)
    ensures
        match res {
            Some(i) => i < entries.len() && entries@[i as int].pid == pid
                && forall|j: int| 0 <= j < i ==> (#[trigger] entries@[j]).pid != pid,
            None => forall|j: int| 0 <= j < entries.len() ==> (#[trigger] entries@[j]).pid != pid,
        },
{
    for i in 0..entries.len()
        invariant
            forall|j: int| 0 <= j < i ==> (#[trigger] entries@[j]).pid != pid,
    {
        if entries[i].pid == pid {
            return Some(i);
        }
    }
    None
}

/// `i` is the position of the first entry with `pid`.
proof fn lemma_first_position(entries: Seq<ProcEntry>, pid: u32, i: int)
    requires
        0 <= i < entries.len(),
        entries[i].pid == pid,
        forall|j: int| 0 <= j < i ==> (#[trigger] entries[j]).pid != pid,
    ensures
        first_position(entries, pid) == Some(i),
{
    let k = first_position(entries, pid)->0;
    assert(entries[i].pid == pid);
    if k != i {
        if k < i {
            assert(entries[k].pid != pid);
        } else {
            assert(entries[i].pid != pid);
        }
    }
}

/// The name of process `pid`: that of its first entry, or `N/A` when the
/// process is not listed or its name could not be read.
pub open spec fn spec_name_of(entries: Seq<ProcEntry>, pid: u32) -> Seq<char> {
    match first_position(entries, pid) {
        Some(i) => match entries[i].name {
            Some(n) => n@,
            None => unnamed(),
        },
        None => unnamed(),
    }
}

/// The name of process `pid`, or `N/A`.
pub fn name_of(entries: &Vec<ProcEntry>, pid: u32) -> (res: String)
    ensures
        res@ == spec_name_of(entries@, pid),
{
    proof {
        reveal_strlit("N/A");
    }
    match first_entry(entries, pid) {
        Some(i) => {
            proof {
                lemma_first_position(entries@, pid, i as int);
            }
            match &entries[i].name {
                Some(n) => n.clone(),
                None => String::from_str("N/A"),
            }
        },
        None => String::from_str("N/A"),
    }
}

/// Process `pid` is listed and its (first) entry names a parent.
pub open spec fn spec_has_parent(entries: Seq<ProcEntry>, pid: u32) -> bool {
    match first_position(entries, pid) {
        Some(i) => entries[i].parent is Some,
        None => false,
    }
}

/// Whether process `pid` is listed with a parent.
pub fn has_parent(entries: &Vec<ProcEntry>, pid: u32) -> (res: bool)
    ensures
        res == spec_has_parent(entries@, pid),
{
    match first_entry(entries, pid) {
        Some(i) => {
            proof {
                lemma_first_position(entries@, pid, i as int);
            }
            entries[i].parent.is_some()
        },
        None => false,
    }
}

/// The parent of process `pid`: the parent named by its (first) entry, or the
/// process itself when it is not listed or no parent is known.
pub open spec fn spec_parent_of(entries: Seq<ProcEntry>, pid: u32) -> u32 {
    match first_position(entries, pid) {
        Some(i) => match entries[i].parent {
            Some(p) => p,
            None => pid,
        },
        None => pid,
    }
}

/// A process without a known parent stands for itself; one with a parent is
/// replaced by that parent.
pub proof fn lemma_parent_or_self(entries: Seq<ProcEntry>, pid: u32)
    ensures
        !spec_has_parent(entries, pid) ==> spec_parent_of(entries, pid) == pid,
        spec_has_parent(entries, pid) ==> spec_parent_of(entries, pid) == entries[first_position(entries, pid)->0].parent->0,
{
}

/// The parent of process `pid`, or `pid` itself when none is found; the result
/// is always present.
pub fn parent_of(entries: &Vec<ProcEntry>, pid: u32) -> (res: Option<u32>)
    ensures
        res == Some(spec_parent_of(entries@, pid)),
{
    match first_entry(entries, pid) {
        Some(i) => {
            proof {
                lemma_first_position(entries@, pid, i as int);
            }
            match entries[i].parent {
                Some(p) => Some(p),
                None => Some(pid),
            }
        },
        None => Some(pid),
    }
}

/// The entry's name was read and equals `name`.
pub open spec fn bears_name(e: ProcEntry, name: Seq<char>) -> bool {
    match e.name {
        Some(n) => n@ == name,
        None => false,
    }
}

/// The PID of the last listed process whose name reads `name`.
pub open spec fn spec_pid_named(entries: Seq<ProcEntry>, name: Seq<char>) -> Option<u32> {
    if exists|i: int| 0 <= i < entries.len() && bears_name(#[trigger] entries[i], name) {
        let i = choose|i: int| 0 <= i < entries.len() && bears_name(#[trigger] entries[i], name)
            && forall|j: int| i < j < entries.len() ==> !bears_name(#[trigger] entries[j], name);
        Some(entries[i].pid)
    } else {
        None
    }
}

/// Whether entry `e` has a readable name equal to `name`.
fn has_name(e: &ProcEntry, name: &String) -> (res: bool)
    ensures
        res == bears_name(*e, name@),
{
    match &e.name {
        Some(n) => *n == *name,
        None => false,
    }
}

/// The PID of the last listed process named `name`, or `None`.
pub fn pid_named(entries: &Vec<ProcEntry>, name: &String) -> (res: Option<u32>)
    ensures
        res == spec_pid_named(entries@, name@),
{
    let mut found: Option<usize> = None;
    for i in 0..entries.len()
        invariant
            match found {
                Some(k) => k < i && bears_name(entries@[k as int], name@)
                    && forall|j: int| k < j < i ==> !bears_name(#[trigger] entries@[j], name@),
                None => forall|j: int| 0 <= j < i ==> !bears_name(#[trigger] entries@[j], name@),
            },
    {
        if has_name(&entries[i], name) {
            found = Some(i);
        }
    }
    match found {
        Some(k) => {
            proof {
                let ghost es = entries@;
                let ghost c = choose|i: int| 0 <= i < es.len() && bears_name(#[trigger] es[i], name@)
                    && forall|j: int| i < j < es.len() ==> !bears_name(#[trigger] es[j], name@);
                assert(bears_name(es[k as int], name@));
                if c != k {
                    if c < k {
                        assert(bears_name(es[k as int], name@));
                    } else {
                        assert(!bears_name(es[c], name@));
                    }
                }
            }
            Some(entries[k].pid)
        },
        None => None,
    }
}

/// Why a process could not be found by name.
#[derive(Copy, Clone, PartialEq, Eq, Structural, Debug)]
pub enum PidLookupError {
    /// No listed process has the name.
    NoProcess,
}

/// What looking up a process by name gives: the PID of the last listed
/// process with that name.
pub open spec fn spec_resolve_pid(entries: Seq<ProcEntry>, name: Seq<char>) -> Result<u32, PidLookupError> {
    match spec_pid_named(entries, name) {
        Some(pid) => Ok(pid),
        None => Err(PidLookupError::NoProcess),
    }
}

/// Looks a process up by name.
pub fn resolve_pid(entries: &Vec<ProcEntry>, name: &String) -> (res: Result<u32, PidLookupError>)
    ensures
        res == spec_resolve_pid(entries@, name@),
{
    match pid_named(entries, name) {
        Some(pid) => Ok(pid),
        None => Err(PidLookupError::NoProcess),
    }
}

/// When some entry bears `name`, a last such entry exists.
proof fn lemma_last_bearer_exists(entries: Seq<ProcEntry>, name: Seq<char>, i: int)
    requires
        0 <= i < entries.len(),
        bears_name(entries[i], name),
    ensures
        exists|m: int| 0 <= m < entries.len() && bears_name(#[trigger] entries[m], name)
            && forall|j: int| m < j < entries.len() ==> !bears_name(#[trigger] entries[j], name),
    decreases entries.len() - i,
{
    if exists|j: int| i < j < entries.len() && bears_name(#[trigger] entries[j], name) {
        let j = choose|j: int| i < j < entries.len() && bears_name(#[trigger] entries[j], name);
        lemma_last_bearer_exists(entries, name, j);
    } else {
        assert(forall|j: int| i < j < entries.len() ==> !bears_name(#[trigger] entries[j], name));
    }
}

/// A PID found by name belongs to a listed process bearing that name.
pub proof fn lemma_resolved_pid_bears_name(entries: Seq<ProcEntry>, name: Seq<char>)
    ensures
        spec_resolve_pid(entries, name) matches Ok(p) ==> exists|i: int|
            0 <= i < entries.len() && (#[trigger] entries[i]).pid == p && bears_name(entries[i], name),
{
    if spec_pid_named(entries, name) is Some {
        let w = choose|i: int| 0 <= i < entries.len() && bears_name(#[trigger] entries[i], name);
        lemma_last_bearer_exists(entries, name, w);
        let i = choose|i: int| 0 <= i < entries.len() && bears_name(#[trigger] entries[i], name)
            && forall|j: int| i < j < entries.len() ==> !bears_name(#[trigger] entries[j], name);
        assert(entries[i].pid == spec_pid_named(entries, name)->0);
    }
}

/// `n` written with at least two digits, a leading zero added below ten.
pub open spec fn two_digits(n: nat) -> Seq<char> {
    if n < 10 {
        seq!['0'] + decimal(n)
    } else {
        decimal(n)
    }
}

/// `secs` seconds as `HH:MM:SS` (hours may take more than two digits).
pub open spec fn clock_text(secs: nat) -> Seq<char> {
    two_digits(secs / 3600) + seq![':'] + two_digits((secs % 3600) / 60) + seq![':'] + two_digits(secs % 60)
}

/// The clock text splits `secs` into hours, minutes below sixty and seconds
/// below sixty that add up to `secs`.
pub proof fn lemma_clock_text_parts(secs: nat)
    ensures
        ({
            let h = secs / 3600;
            let m = (secs % 3600) / 60;
            let s = secs % 60;
            &&& m < 60
            &&& s < 60
            &&& h * 3600 + m * 60 + s == secs
            &&& clock_text(secs) == two_digits(h) + seq![':'] + two_digits(m) + seq![':'] + two_digits(s)
        }),
{
    assert(secs == (secs / 3600) * 3600 + secs % 3600);
    assert(secs % 3600 == ((secs % 3600) / 60) * 60 + (secs % 3600) % 60);
    assert((secs % 3600) % 60 == secs % 60) by (nonlinear_arith);
}

/// Appends `n` with at least two digits.
fn append_two_digits(s: &mut String, n: u64)
    ensures
        final(s)@ == old(s)@ + two_digits(n as nat),
{
    if n < 10 {
        proof {
            reveal_strlit("0");
        }
        s.append("0");
    }
    append_decimal(s, n);
    assert(final(s)@ =~= old(s)@ + two_digits(n as nat));
}

/// The CPU time of a process, user plus system seconds, as `HH:MM:SS`.
pub fn cpu_time_text(user_secs: u64, system_secs: u64) -> (res: String)
    requires
        user_secs + system_secs <= u64::MAX,
    ensures
        res@ == clock_text((user_secs + system_secs) as nat),
{
    let total = user_secs + system_secs;
    let mut s = String::new();
    proof {
        reveal_strlit(":");
    }
    append_two_digits(&mut s, total / 3600);
    s.append(":");
    append_two_digits(&mut s, (total % 3600) / 60);
    s.append(":");
    append_two_digits(&mut s, total % 60);
    assert(s@ =~= clock_text(total as nat));
    s
}

/// The name shown for the current user: the account name when it is known
/// (and valid text), otherwise the numeric user id.
pub open spec fn spec_user_label(name: Option<Seq<char>>, uid: u32) -> Seq<char> {
    match name {
        Some(n) => n,
        None => decimal(uid as nat),
    }
}

/// The current user's name, or the user id when the name is unknown.
pub fn user_label(name: Option<String>, uid: u32) -> (res: String)
    ensures
        res@ == spec_user_label(
            match name {
                Some(n) => Some(n@),
                None => None,
            },
            uid,
        ),
{
    match name {
        Some(n) => n,
        None => decimal_string(uid as u64),
    }
}

/// `c` is an ASCII decimal digit.
pub open spec fn is_digit(c: char) -> bool {
    '0' <= c && c <= '9'
}

/// `s` has the shape of `%Y-%m-%d %H:%M:%S`: a year of at least four
/// characters, then `-MM-DD HH:MM:SS` with two digits per field.
pub open spec fn date_time_shape(s: Seq<char>) -> bool {
    let n = s.len() as int;
    &&& n >= 19
    &&& s[n - 15] == '-'
    &&& is_digit(s[n - 14]) && is_digit(s[n - 13])
    &&& s[n - 12] == '-'
    &&& is_digit(s[n - 11]) && is_digit(s[n - 10])
    &&& s[n - 9] == ' '
    &&& is_digit(s[n - 8]) && is_digit(s[n - 7])
    &&& s[n - 6] == ':'
    &&& is_digit(s[n - 5]) && is_digit(s[n - 4])
    &&& s[n - 3] == ':'
    &&& is_digit(s[n - 2]) && is_digit(s[n - 1])
}

/// The earliest Unix time chrono represents (January 1 of year -262143, that is
/// 262144 BCE, 00:00:00 UTC).
pub const CHRONO_MIN_SECS: i64 = -8334601228800;

/// The latest Unix time chrono represents (December 31, 262142 CE, 23:59:59 UTC).
pub const CHRONO_MAX_SECS: i64 = 8210266876799;

/// chrono's `DateTime::from_timestamp(secs, 0)` gives a date-time: `secs` lies
/// between the first and the last second of chrono's date range.
pub open spec fn in_chrono_range(secs: i64) -> bool {
    CHRONO_MIN_SECS <= secs <= CHRONO_MAX_SECS
}

/// The text chrono's `format("%Y-%m-%d %H:%M:%S")` gives for the instant `secs`
/// seconds after the Unix epoch, seen at a UTC offset of `offset` seconds.
pub uninterp spec fn date_time_text(secs: i64, offset: i32) -> Seq<char>;

/// Renders the Unix time `secs` in the machine's local time zone with chrono:
/// `Local.timestamp_opt(secs, 0)`, formatted as `%Y-%m-%d %H:%M:%S`, together
/// with the UTC offset (in seconds) chrono applied. `timestamp_opt` gives a
/// single time exactly when `DateTime::from_timestamp(secs, 0)` does, that is on
/// chrono's date range. `%Y` writes the year with at least four characters and
/// the other fields take two digits each. The offset is that of the local time
/// zone at that instant, a `FixedOffset` under a day; which offset it is depends
/// on the machine and is not stated.
#[verifier::external_body]
fn local_time_text(secs: i64) -> (res: (Option<String>, i32))
    ensures
        res.0 is Some <==> in_chrono_range(secs),
        res.0 matches Some(t) ==> {
            &&& date_time_shape(t@)
            &&& -86400 < res.1 < 86400
            &&& t@ == date_time_text(secs, res.1)
        },
{
    match chrono::TimeZone::timestamp_opt(&chrono::Local, secs, 0).single() {
        Some(dt) => (Some(dt.format("%Y-%m-%d %H:%M:%S").to_string()), dt.offset().local_minus_utc()),
        None => (None, 0),
    }
}

/// The start time of a process created `create_secs` seconds after the Unix
/// epoch, as local date and time; the seconds are taken as a signed count, as
/// `as i64` converts them. A text is given whenever that count is in chrono's
/// range, and it shows that instant at the local time zone's offset.
pub fn start_time_text(create_secs: u64) -> (res: Option<String>)
    ensures
        res is Some <==> in_chrono_range(create_secs as i64),
        res matches Some(t) ==> {
            &&& date_time_shape(t@)
            &&& exists|offset: i32| -86400 < offset < 86400 && t@ == #[trigger] date_time_text(create_secs as i64, offset)
        },
{
    #[verifier::truncate]
    let secs = create_secs as i64;
    let (text, offset) = local_time_text(secs);
    proof {
        if text is Some {
            assert(text->0@ == date_time_text(create_secs as i64, offset));
        }
    }
    text
}

/// The result of a lookup by name is exact: `Err` exactly when no listed
/// process's name equals `name`, and otherwise the PID of the last listed
/// process whose name equals `name` (a name that merely starts with `name` does
/// not count).
pub proof fn lemma_resolve_pid_exact(entries: Seq<ProcEntry>, name: Seq<char>)
    ensures
        (spec_resolve_pid(entries, name) is Err) <==> forall|i: int|
            0 <= i < entries.len() ==> !(match #[trigger] entries[i].name {
                Some(s) => s@ == name,
                None => false,
            }),
        spec_resolve_pid(entries, name) matches Ok(p) ==> exists|i: int|
            0 <= i < entries.len() && (#[trigger] entries[i]).pid == p && (match entries[i].name {
                Some(s) => s@ == name,
                None => false,
            }) && forall|j: int|
                i < j < entries.len() ==> !(match #[trigger] entries[j].name {
                    Some(s) => s@ == name,
                    None => false,
                }),
{
    assert forall|i: int| 0 <= i < entries.len() implies bears_name(#[trigger] entries[i], name) == (match entries[i].name {
        Some(s) => s@ == name,
        None => false,
    }) by {}
    if exists|i: int| 0 <= i < entries.len() && bears_name(#[trigger] entries[i], name) {
        let w = choose|i: int| 0 <= i < entries.len() && bears_name(#[trigger] entries[i], name);
        lemma_last_bearer_exists(entries, name, w);
        let i = choose|i: int| 0 <= i < entries.len() && bears_name(#[trigger] entries[i], name)
            && forall|j: int| i < j < entries.len() ==> !bears_name(#[trigger] entries[j], name);
        assert(entries[i].pid == spec_pid_named(entries, name)->0);
        assert forall|j: int| i < j < entries.len() implies !(match #[trigger] entries[j].name {
            Some(s) => s@ == name,
            None => false,
        }) by {
            assert(!bears_name(entries[j], name));
        }
        assert(!(spec_resolve_pid(entries, name) is Err));
        assert(bears_name(entries[w], name));
    }
}

/// A digit character is an ASCII digit.
proof fn lemma_digit_char_is_digit(d: nat)
    ensures
        is_digit(digit_char(d)),
{
}

/// Below a hundred, `two_digits` gives exactly two digits that read back as `n`.
proof fn lemma_two_digits(n: nat)
    requires
        n < 100,
    ensures
        two_digits(n).len() == 2,
        is_digit(two_digits(n)[0]) && is_digit(two_digits(n)[1]),
        decimal_value(two_digits(n)) == n,
{
    lemma_digit_char_is_digit(n);
    lemma_digit_char_is_digit(n / 10);
    lemma_digit_char_is_digit(n % 10);
    lemma_decimal_round_trip(n);
    if n < 10 {
        let t = two_digits(n);
        assert(t =~= seq!['0', digit_char(n)]);
        assert(t.drop_last() =~= seq!['0']);
        assert(seq!['0'].drop_last() =~= Seq::<char>::empty());
        assert(decimal_value(Seq::<char>::empty()) == 0);
        assert(seq!['0'].last() == '0');
        assert(crate::text::digit_value('0') == 0);
        assert(decimal_value(seq!['0']) == decimal_value(seq!['0'].drop_last()) * 10 + crate::text::digit_value(seq!['0'].last()));
        assert(decimal_value(seq!['0']) == 0);
    } else {
        assert(decimal(n) == decimal(n / 10).push(digit_char(n % 10)));
        assert(decimal(n / 10) == seq![digit_char(n / 10)]);
    }
}

/// Every field of an hour count below a hundred is written with exactly two
/// digits: the text has eight characters, colons at positions two and five,
/// digits elsewhere, and its fields read back as the hours, the minutes below
/// sixty and the seconds below sixty of `secs`.
pub proof fn lemma_clock_text_fields(secs: nat)
    requires
        secs < 360000,
    ensures
        ({
            let t = clock_text(secs);
            &&& t.len() == 8
            &&& t[2] == ':' && t[5] == ':'
            &&& forall|i: int| 0 <= i < 8 && i != 2 && i != 5 ==> is_digit(#[trigger] t[i])
            &&& decimal_value(t.subrange(0, 2)) == secs / 3600
            &&& decimal_value(t.subrange(3, 5)) == (secs % 3600) / 60
            &&& decimal_value(t.subrange(6, 8)) == secs % 60
            &&& (secs / 3600) * 3600 + ((secs % 3600) / 60) * 60 + secs % 60 == secs
        }),
{
    let h = secs / 3600;
    let m = (secs % 3600) / 60;
    let s = secs % 60;
    lemma_clock_text_parts(secs);
    lemma_two_digits(h);
    lemma_two_digits(m);
    lemma_two_digits(s);
    let t = clock_text(secs);
    assert(t.subrange(0, 2) =~= two_digits(h));
    assert(t.subrange(3, 5) =~= two_digits(m));
    assert(t.subrange(6, 8) =~= two_digits(s));
    assert(t[0] == two_digits(h)[0] && t[1] == two_digits(h)[1]);
    assert(t[3] == two_digits(m)[0] && t[4] == two_digits(m)[1]);
    assert(t[6] == two_digits(s)[0] && t[7] == two_digits(s)[1]);
}

/// Lookups by PID use the first listed entry with that PID: its name (or `N/A`
/// when unreadable or unlisted), whether it names a parent, and that parent (or
/// the PID itself).
pub proof fn lemma_lookup_by_first_entry(entries: Seq<ProcEntry>, pid: u32, i: int)
    requires
        0 <= i < entries.len(),
        entries[i].pid == pid,
        forall|j: int| 0 <= j < i ==> (#[trigger] entries[j]).pid != pid,
    ensures
        spec_name_of(entries, pid) == (match entries[i].name {
            Some(n) => n@,
            None => seq!['N', '/', 'A'],
        }),
        spec_has_parent(entries, pid) == (entries[i].parent is Some),
        spec_parent_of(entries, pid) == (match entries[i].parent {
            Some(p) => p,
            None => pid,
        }),
{
    lemma_first_position(entries, pid, i);
}

/// An unlisted PID is named `N/A`, has no parent and stands for itself.
pub proof fn lemma_lookup_unlisted(entries: Seq<ProcEntry>, pid: u32)
    requires
        forall|j: int| 0 <= j < entries.len() ==> (#[trigger] entries[j]).pid != pid,
    ensures
        spec_name_of(entries, pid) == seq!['N', '/', 'A'],
        !spec_has_parent(entries, pid),
        spec_parent_of(entries, pid) == pid,
{
}

} // verus!
