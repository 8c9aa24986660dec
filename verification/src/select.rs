//! Which processes the monitor tracks: by name, by PID, or all of them.
use vstd::prelude::*;
use crate::text::chars_of;

verus! {

/// What `str::to_lowercase` returns for a text (Unicode lower-case mapping).
pub uninterp spec fn lowercase(s: Seq<char>) -> Seq<char>;

/// Calls `str::to_lowercase`; the result is named `lowercase` of the argument.
#[verifier::external_body]
fn to_lower(s: &str) -> (res: String)
    ensures
        res@ == lowercase(s@),
{
    s.to_lowercase()
}

/// `needle` occurs in `hay` as a contiguous part (the empty text occurs everywhere).
pub open spec fn contains_text(hay: Seq<char>, needle: Seq<char>) -> bool {
    exists|i: int| 0 <= i && i + needle.len() <= hay.len() && #[trigger] hay.subrange(i, i + needle.len()) == needle
}

/// Whether `needle` occurs in `hay` at position `at`.
fn occurs_at(hay: &Vec<char>, needle: &Vec<char>, at: usize) -> (res: bool)
    requires
        at + needle.len() <= hay.len(),
    ensures
        res == (hay@.subrange(at as int, at + needle.len()) == needle@),
{
    let n = needle.len();
    for k in 0..n
        invariant
            n == needle.len(),
            at + n <= hay.len(),
            forall|j: int| 0 <= j < k ==> hay@[at + j] == needle@[j],
    {
        if hay[at + k] != needle[k] {
            assert(hay@.subrange(at as int, at + n)[k as int] != needle@[k as int]);
            return false;
        }
    }
    assert(hay@.subrange(at as int, at + n) =~= needle@);
    true
}

/// Decides `contains_text(hay@, needle@)`.
pub fn contains_chars(hay: &Vec<char>, needle: &Vec<char>) -> (res: bool)
    ensures
        res == contains_text(hay@, needle@),
{
    if needle.len() > hay.len() {
        return false;
    }
    let last = hay.len() - needle.len();
    let mut i: usize = 0;
    loop
        invariant
            last + needle.len() == hay.len(),
            i <= last,
            forall|j: int| 0 <= j < i ==> #[trigger] hay@.subrange(j, j + needle@.len()) != needle@,
        decreases last - i,
    {
        if occurs_at(hay, needle, i) {
            return true;
        }
        if i == last {
            return false;
        }
        i = i + 1;
    }
}

/// A process name matches the name filters: its lower-case form contains the
/// lower-case form of one of them.
pub open spec fn name_matches(name: Seq<char>, filters: Seq<String>) -> bool {
    exists|j: int| 0 <= j < filters.len() && contains_text(lowercase(name), lowercase(#[trigger] filters[j]@))
}

/// `pid` was asked for: a process listed with that PID matches the name
/// filters, or the PID is among the PID filters.
pub open spec fn requested(procs: Seq<(u32, String)>, names: Seq<String>, pids: Seq<u32>, pid: u32) -> bool {
    (exists|i: int| 0 <= i < procs.len() && (#[trigger] procs[i]).0 == pid && name_matches(procs[i].1@, names))
        || pids.contains(pid)
}

/// Some PID was asked for.
pub open spec fn anything_requested(procs: Seq<(u32, String)>, names: Seq<String>, pids: Seq<u32>) -> bool {
    (exists|i: int| 0 <= i < procs.len() && name_matches((#[trigger] procs[i]).1@, names)) || pids.len() > 0
}

/// The PIDs of `procs`, in order.
pub open spec fn all_pids(procs: Seq<(u32, String)>) -> Seq<u32> {
    procs.map_values(|p: (u32, String)| p.0)
}

/// The PIDs the monitor shows: all of them when nothing was asked for, otherwise
/// those asked for, in the order of `procs`.
pub open spec fn shown_pids(procs: Seq<(u32, String)>, names: Seq<String>, pids: Seq<u32>) -> Seq<u32> {
    if anything_requested(procs, names, pids) {
        all_pids(procs).filter(|p: u32| requested(procs, names, pids, p))
    } else {
        all_pids(procs)
    }
}

/// Whether `name` matches one of the lower-cased filters in `lowered`.
fn matches_any(name: &str, lowered: &Vec<Vec<char>>, Ghost(names): Ghost<Seq<String>>) -> (res: bool)
    requires
        lowered.len() == names.len(),
        forall|j: int| 0 <= j < names.len() ==> (#[trigger] lowered@[j])@ == lowercase(names[j]@),
    ensures
        res == name_matches(name@, names),
{
    let lname = chars_of(to_lower(name).as_str());
    for j in 0..lowered.len()
        invariant
            lowered.len() == names.len(),
            forall|j: int| 0 <= j < names.len() ==> (#[trigger] lowered@[j])@ == lowercase(names[j]@),
            lname@ == lowercase(name@),
            forall|k: int| 0 <= k < j ==> !contains_text(lowercase(name@), lowercase(#[trigger] names[k]@)),
    {
        if contains_chars(&lname, &lowered[j]) {
            return true;
        }
    }
    false
}

/// Whether `v` holds `x`.
fn holds(v: &Vec<u32>, x: u32) -> (res: bool)
    ensures
        res == v@.contains(x),
{
    for i in 0..v.len()
        invariant
            forall|j: int| 0 <= j < i ==> v@[j] != x,
    {
        if v[i] == x {
            return true;
        }
    }
    false
}

/// The PIDs to monitor. `procs` lists every process with its name, in the
/// order the system reports them; `names` are the name filters and `pids` the
/// PID filters. A process is monitored when its lower-case name contains the
/// lower-case form of a name filter or its PID is a PID filter; with no such
/// process and no PID filter, every process is monitored.
pub fn monitored_pids(procs: &Vec<(u32, String)>, names: &Vec<String>, pids: &Vec<u32>) -> (res: Vec<u32>)
    ensures
        res@ == shown_pids(procs@, names@, pids@),
{
    let mut lowered: Vec<Vec<char>> = Vec::new();
    for j in 0..names.len()
        invariant
            lowered.len() == j,
            forall|k: int| 0 <= k < j ==> (#[trigger] lowered@[k])@ == lowercase(names@[k]@),
    {
        lowered.push(chars_of(to_lower(names[j].as_str()).as_str()));
    }
    // PIDs asked for by name
    let mut wanted: Vec<u32> = Vec::new();
    let mut any_name = false;
    for i in 0..procs.len()
        invariant
            lowered.len() == names.len(),
            forall|k: int| 0 <= k < names.len() ==> (#[trigger] lowered@[k])@ == lowercase(names@[k]@),
            forall|p: u32| wanted@.contains(p) <==> exists|k: int| 0 <= k < i && (#[trigger] procs@[k]).0 == p && name_matches(procs@[k].1@, names@),
            any_name == exists|k: int| 0 <= k < i && name_matches((#[trigger] procs@[k]).1@, names@),
    {
        let ghost prev = wanted@;
        let hit = matches_any(procs[i].1.as_str(), &lowered, Ghost(names@));
        if hit {
            wanted.push(procs[i].0);
            any_name = true;
        }
        proof {
            let x = procs@[i as int].0;
            assert forall|p: u32| #![trigger wanted@.contains(p)] #![trigger prev.contains(p)] wanted@.contains(p) <==> (prev.contains(p) || (hit && p == x)) by {
                if wanted@.contains(p) {
                    let m = choose|m: int| 0 <= m < wanted@.len() && wanted@[m] == p;
                    if m < prev.len() {
                        assert(prev[m] == p);
                    }
                }
                if prev.contains(p) {
                    let m = choose|m: int| 0 <= m < prev.len() && prev[m] == p;
                    assert(wanted@[m] == p);
                }
                if hit && p == x {
                    assert(wanted@[prev.len() as int] == p);
                }
            }
            assert forall|p: u32| wanted@.contains(p) <==> exists|k: int| 0 <= k < i + 1 && (#[trigger] procs@[k]).0 == p && name_matches(procs@[k].1@, names@) by {
                if wanted@.contains(p) {
                    if !prev.contains(p) {
                        assert(hit && p == x);
                        assert(name_matches(procs@[i as int].1@, names@));
                        assert(procs@[i as int].0 == p);
                    } else {
                        let k = choose|k: int| 0 <= k < i && (#[trigger] procs@[k]).0 == p && name_matches(procs@[k].1@, names@);
                        assert(0 <= k < i + 1);
                    }
                }
                if exists|k: int| 0 <= k < i + 1 && (#[trigger] procs@[k]).0 == p && name_matches(procs@[k].1@, names@) {
                    let k = choose|k: int| 0 <= k < i + 1 && (#[trigger] procs@[k]).0 == p && name_matches(procs@[k].1@, names@);
                    if k == i {
                        assert(hit && p == x);
                    } else {
                        assert(prev.contains(p));
                    }
                    assert(wanted@.contains(p));
                }
            }
        }
    }
    let asked = any_name || pids.len() > 0;
    let mut out: Vec<u32> = Vec::new();
    let ghost all = all_pids(procs@);
    let ghost pred = |p: u32| requested(procs@, names@, pids@, p);
    for i in 0..procs.len()
        invariant
            all == all_pids(procs@),
            pred == (|p: u32| requested(procs@, names@, pids@, p)),
            forall|p: u32| wanted@.contains(p) <==> exists|k: int| 0 <= k < procs@.len() && (#[trigger] procs@[k]).0 == p && name_matches(procs@[k].1@, names@),
            asked == anything_requested(procs@, names@, pids@),
            out@ == if asked { all.take(i as int).filter(pred) } else { all.take(i as int) },
    {
        let p = procs[i].0;
        proof {
            reveal(Seq::filter);
            assert(all.take(i as int + 1).drop_last() =~= all.take(i as int));
            assert(all.take(i as int + 1).last() == p);
        }
        if asked {
            let keep = holds(&wanted, p) || holds(pids, p);
            if keep {
                out.push(p);
            }
        } else {
            out.push(p);
            assert(out@ =~= all.take(i as int + 1));
        }
    }
    assert(all.take(procs@.len() as int) =~= all);
    out
}

/// With no name filter and no PID filter every listed process is shown, in
/// the order of the listing.
pub proof fn lemma_no_filter_shows_all(procs: Seq<(u32, String)>)
    ensures
        shown_pids(procs, Seq::empty(), Seq::empty()) == all_pids(procs),
{
}

/// A listed process whose PID is a PID filter is shown.
pub proof fn lemma_pid_filter_shown(procs: Seq<(u32, String)>, names: Seq<String>, pids: Seq<u32>, pid: u32)
    requires
        pids.contains(pid),
        all_pids(procs).contains(pid),
    ensures
        shown_pids(procs, names, pids).contains(pid),
{
    let all = all_pids(procs);
    let i = choose|i: int| 0 <= i < all.len() && all[i] == pid;
    all.lemma_filter_contains(|p: u32| requested(procs, names, pids, p), i);
}

/// Only listed processes are shown, and every shown one was asked for unless
/// nothing was asked for.
pub proof fn lemma_shown_are_listed(procs: Seq<(u32, String)>, names: Seq<String>, pids: Seq<u32>, pid: u32)
    requires
        shown_pids(procs, names, pids).contains(pid),
    ensures
        all_pids(procs).contains(pid),
        anything_requested(procs, names, pids) ==> requested(procs, names, pids, pid),
{
    let all = all_pids(procs);
    let pred = |p: u32| requested(procs, names, pids, p);
    if anything_requested(procs, names, pids) {
        let f = all.filter(pred);
        let k = choose|k: int| 0 <= k < f.len() && f[k] == pid;
        all.lemma_filter_pred(pred, k);
        all.lemma_filter_contains_rev(pred, pid);
    }
}

/// `owners` lists process `pid` as owned by user `uid`.
pub open spec fn is_owned_by(owners: Seq<(u32, Option<u32>)>, pid: u32, uid: u32) -> bool {
    exists|i: int| 0 <= i < owners.len() && #[trigger] owners[i] == (pid, Some(uid))
}

/// The PIDs of `pids`, in order, whose process belongs to user `uid`.
pub open spec fn owned_pids(pids: Seq<u32>, owners: Seq<(u32, Option<u32>)>, uid: u32) -> Seq<u32> {
    pids.filter(|p: u32| is_owned_by(owners, p, uid))
}

/// Whether `owners` lists `pid` as owned by `uid`.
fn owned(owners: &Vec<(u32, Option<u32>)>, pid: u32, uid: u32) -> (res: bool)
    ensures
        res == is_owned_by(owners@, pid, uid),
{
    for i in 0..owners.len()
        invariant
            forall|j: int| 0 <= j < i ==> #[trigger] owners@[j] != (pid, Some(uid)),
    {
        let (p, o) = owners[i];
        if p == pid {
            if let Some(u) = o {
                if u == uid {
                    return true;
                }
            }
        }
    }
    false
}

/// Keeps the PIDs whose process belongs to user `uid`; `owners` gives each
/// process's owning user, `None` when it could not be read (such a process is
/// dropped).
pub fn keep_owned(pids: &Vec<u32>, owners: &Vec<(u32, Option<u32>)>, uid: u32) -> (res: Vec<u32>)
    ensures
        res@ == owned_pids(pids@, owners@, uid),
{
    let mut out: Vec<u32> = Vec::new();
    let ghost pred = |p: u32| is_owned_by(owners@, p, uid);
    for i in 0..pids.len()
        invariant
            pred == (|p: u32| is_owned_by(owners@, p, uid)),
            out@ == pids@.take(i as int).filter(pred),
    {
        proof {
            reveal(Seq::filter);
            assert(pids@.take(i as int + 1).drop_last() =~= pids@.take(i as int));
        }
        if owned(owners, pids[i], uid) {
            out.push(pids[i]);
        }
    }
    assert(pids@.take(pids@.len() as int) =~= pids@);
    out
}

/// Every PID kept for a user belongs to that user, and every PID of that user
/// is kept.
pub proof fn lemma_keep_owned_exact(pids: Seq<u32>, owners: Seq<(u32, Option<u32>)>, uid: u32, pid: u32)
    ensures
        owned_pids(pids, owners, uid).contains(pid) <==> (pids.contains(pid) && is_owned_by(owners, pid, uid)),
{
    let pred = |p: u32| is_owned_by(owners, p, uid);
    if owned_pids(pids, owners, uid).contains(pid) {
        pids.lemma_filter_contains_rev(pred, pid);
        let k = choose|k: int| 0 <= k < pids.filter(pred).len() && pids.filter(pred)[k] == pid;
        pids.lemma_filter_pred(pred, k);
    }
    if pids.contains(pid) && is_owned_by(owners, pid, uid) {
        let i = choose|i: int| 0 <= i < pids.len() && pids[i] == pid;
        pids.lemma_filter_contains(pred, i);
    }
}

/// Any name filter selects: a listed process whose lower-case name contains,
/// at some position `k`, the lower-case form of the `j`-th name filter is shown,
/// whichever filter that is.
pub proof fn lemma_any_name_filter_selects(
    procs: Seq<(u32, String)>,
    names: Seq<String>,
    pids: Seq<u32>,
    i: int,
    j: int,
    k: int,
)
    requires
        0 <= i < procs.len(),
        0 <= j < names.len(),
        0 <= k,
        k + lowercase(names[j]@).len() <= lowercase(procs[i].1@).len(),
        lowercase(procs[i].1@).subrange(k, k + lowercase(names[j]@).len()) == lowercase(names[j]@),
    ensures
        shown_pids(procs, names, pids).contains(procs[i].0),
{
    let hay = lowercase(procs[i].1@);
    let needle = lowercase(names[j]@);
    assert(hay.subrange(k, k + needle.len()) == needle);
    assert(contains_text(hay, needle));
    assert(name_matches(procs[i].1@, names));
    assert(anything_requested(procs, names, pids));
    assert(requested(procs, names, pids, procs[i].0));
    let all = all_pids(procs);
    assert(all[i] == procs[i].0);
    all.lemma_filter_contains(|p: u32| requested(procs, names, pids, p), i);
}

/// When something was asked for, every shown PID is a PID filter or belongs to a
/// listed process whose lower-case name contains the lower-case form of some
/// name filter.
pub proof fn lemma_shown_pid_was_asked_for(procs: Seq<(u32, String)>, names: Seq<String>, pids: Seq<u32>, pid: u32)
    requires
        shown_pids(procs, names, pids).contains(pid),
        pids.len() > 0 || exists|i: int, j: int, k: int|
            0 <= i < procs.len() && 0 <= j < names.len() && 0 <= k && k + lowercase(names[j]@).len()
                <= lowercase(procs[i].1@).len() && #[trigger] lowercase(procs[i].1@).subrange(
                k,
                k + lowercase(#[trigger] names[j]@).len(),
            ) == lowercase(names[j]@),
    ensures
        pids.contains(pid) || exists|i: int, j: int, k: int|
            0 <= i < procs.len() && procs[i].0 == pid && 0 <= j < names.len() && 0 <= k && k + lowercase(
                names[j]@,
            ).len() <= lowercase(procs[i].1@).len() && #[trigger] lowercase(procs[i].1@).subrange(
                k,
                k + lowercase(#[trigger] names[j]@).len(),
            ) == lowercase(names[j]@),
{
    if pids.len() == 0 {
        let (i, j, k) = choose|i: int, j: int, k: int|
            0 <= i < procs.len() && 0 <= j < names.len() && 0 <= k && k + lowercase(names[j]@).len()
                <= lowercase(procs[i].1@).len() && #[trigger] lowercase(procs[i].1@).subrange(
                k,
                k + lowercase(#[trigger] names[j]@).len(),
            ) == lowercase(names[j]@);
        assert(contains_text(lowercase(procs[i].1@), lowercase(names[j]@)));
        assert(name_matches(procs[i].1@, names));
    }
    assert(anything_requested(procs, names, pids));
    lemma_shown_are_listed(procs, names, pids, pid);
    assert(requested(procs, names, pids, pid));
    if !pids.contains(pid) {
        let i = choose|i: int| 0 <= i < procs.len() && (#[trigger] procs[i]).0 == pid && name_matches(procs[i].1@, names);
        let j = choose|j: int| 0 <= j < names.len() && contains_text(lowercase(procs[i].1@), lowercase(#[trigger] names[j]@));
        let hay = lowercase(procs[i].1@);
        let needle = lowercase(names[j]@);
        let k = choose|k: int| 0 <= k && k + needle.len() <= hay.len() && #[trigger] hay.subrange(k, k + needle.len()) == needle;
        assert(lowercase(procs[i].1@).subrange(k, k + lowercase(names[j]@).len()) == lowercase(names[j]@));
    }
}

/// With no PID filter and no listed process whose lower-case name contains the
/// lower-case form of any name filter, every listed process is shown, in order.
pub proof fn lemma_nothing_matched_shows_all(procs: Seq<(u32, String)>, names: Seq<String>)
    requires
        forall|i: int, j: int, k: int|
            0 <= i < procs.len() && 0 <= j < names.len() && 0 <= k && k + lowercase(names[j]@).len()
                <= lowercase(procs[i].1@).len() ==> #[trigger] lowercase(procs[i].1@).subrange(
                k,
                k + lowercase(#[trigger] names[j]@).len(),
            ) != lowercase(names[j]@),
    ensures
        shown_pids(procs, names, Seq::empty()) == Seq::new(procs.len(), |i: int| procs[i].0),
{
    assert forall|i: int| 0 <= i < procs.len() implies !name_matches((#[trigger] procs[i]).1@, names) by {
        if name_matches(procs[i].1@, names) {
            let j = choose|j: int| 0 <= j < names.len() && contains_text(lowercase(procs[i].1@), lowercase(#[trigger] names[j]@));
            let hay = lowercase(procs[i].1@);
            let needle = lowercase(names[j]@);
            let k = choose|k: int| 0 <= k && k + needle.len() <= hay.len() && #[trigger] hay.subrange(k, k + needle.len()) == needle;
            assert(lowercase(procs[i].1@).subrange(k, k + lowercase(names[j]@).len()) != lowercase(names[j]@));
        }
    }
    assert(!anything_requested(procs, names, Seq::empty()));
    assert(all_pids(procs) =~= Seq::new(procs.len(), |i: int| procs[i].0));
}

} // verus!
