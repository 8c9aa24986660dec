//! The process table: which rows are shown, in which order, and how many.
use vstd::prelude::*;
use crate::lex::{lex_less, lex_less_chars, lemma_lex_irreflexive, lemma_lex_transitive, lemma_lex_total};
use crate::text::chars_of;

verus! {

/// The column by which the table is sorted.
#[derive(Copy, Clone, PartialEq, Eq, Structural, PartialOrd, Ord, Debug)]
pub enum SortBy {
    Pid,
    Name,
    Cpu,
    Ram,
    RamPercent,
}

/// The direction of the sort.
#[derive(Copy, Clone, PartialEq, Eq, Structural, PartialOrd, Ord, Debug)]
pub enum Order {
    Asc,
    Desc,
}

/// One row of the table.
///
/// `cpu`, `mem`, `ram_percent` and `io` are ordering keys of the measured
/// values (CPU %, resident memory in MB, share of total memory in %, IO in B/s).
/// The key of a measurement whose sign bit is clear is its IEEE-754 double bit
/// pattern with the top bit set; that of one whose sign bit is set is its bit
/// pattern inverted. The measurement can be recovered from its key, and for two
/// measurements that are not NaN, `canonical_key` of one key is smaller exactly
/// when that measurement is smaller (negative zero and zero tie). A NaN's key is
/// above that of +∞ when its sign bit is clear and below that of −∞ when it is
/// set (see `is_nan_key`).
pub struct ProcessRow {
    pub pid: u32,
    pub name: String,
    pub cpu: u64,
    pub mem: u64,
    pub ram_percent: u64,
    pub io: u64,
}

impl ProcessRow {
    /// A copy of this row.
    pub fn duplicate(&self) -> (res: ProcessRow)
        ensures
            res == *self,
    {
        ProcessRow {
            pid: self.pid,
            name: self.name.clone(),
            cpu: self.cpu,
            mem: self.mem,
            ram_percent: self.ram_percent,
            io: self.io,
        }
    }
}

/// The ordering key of +∞; keys above it belong to NaNs with the sign bit clear.
pub const POS_INF_KEY: u64 = 0xFFF0_0000_0000_0000;

/// The ordering key of −∞; keys below it belong to NaNs with the sign bit set.
pub const NEG_INF_KEY: u64 = 0x000F_FFFF_FFFF_FFFF;

/// The ordering key of negative zero.
pub const NEG_ZERO_KEY: u64 = 0x7FFF_FFFF_FFFF_FFFF;

/// The ordering key of zero.
pub const ZERO_KEY: u64 = 0x8000_0000_0000_0000;

/// `k` is the ordering key of a NaN.
pub open spec fn is_nan_key(k: u64) -> bool {
    k > POS_INF_KEY || k < NEG_INF_KEY
}

/// The key by which measurements are compared: negative zero's key is taken as
/// zero's, so the two tie. NaN keys keep their place (the order of rows holding
/// a NaN is unspecified for `sort_by` with a comparator that is not an order).
pub open spec fn canonical_key(k: u64) -> u64 {
    if k == NEG_ZERO_KEY {
        ZERO_KEY
    } else {
        k
    }
}

/// Computes `canonical_key(k)`.
pub fn canonical(k: u64) -> (res: u64)
    ensures
        res == canonical_key(k),
{
    if k == NEG_ZERO_KEY {
        ZERO_KEY
    } else {
        k
    }
}

/// The key of `a` is strictly smaller than the key of `b` in column `by`.
pub open spec fn key_less(a: ProcessRow, b: ProcessRow, by: SortBy) -> bool {
    match by {
        SortBy::Pid => a.pid < b.pid,
        SortBy::Name => lex_less(a.name@, b.name@),
        SortBy::Cpu => canonical_key(a.cpu) < canonical_key(b.cpu),
        SortBy::Ram => canonical_key(a.mem) < canonical_key(b.mem),
        SortBy::RamPercent => canonical_key(a.ram_percent) < canonical_key(b.ram_percent),
    }
}

/// `a` must be listed before `b` whatever their positions: its key comes
/// strictly first in the requested direction.
pub open spec fn precedes(a: ProcessRow, b: ProcessRow, by: SortBy, order: Order) -> bool {
    match order {
        Order::Asc => key_less(a, b, by),
        Order::Desc => key_less(b, a, by),
    }
}

/// In a stable sort of `rows`, the row at index `i` comes before the row at
/// index `j`: its key comes first, or the keys tie and `i` came first.
pub open spec fn placed_before(rows: Seq<ProcessRow>, i: int, j: int, by: SortBy, order: Order) -> bool {
    precedes(rows[i], rows[j], by, order) || (!precedes(rows[j], rows[i], by, order) && i < j)
}

/// `p` lists the indices of `rows` in the order of a stable sort by `by` and `order`.
/// Every index of `rows` occurs exactly once (the entries are in range and, being
/// strictly ordered by `placed_before`, distinct).
pub open spec fn is_sort_permutation(p: Seq<int>, rows: Seq<ProcessRow>, by: SortBy, order: Order) -> bool {
    &&& p.len() == rows.len()
    &&& forall|k: int| 0 <= k < p.len() ==> 0 <= #[trigger] p[k] < rows.len()
    &&& forall|k: int, l: int|
        #![trigger p[k], p[l]]
        0 <= k < l < p.len() ==> placed_before(rows, p[k], p[l], by, order)
}

/// The rows of `rows` taken in the order `p`.
pub open spec fn permuted(rows: Seq<ProcessRow>, p: Seq<int>) -> Seq<ProcessRow> {
    Seq::new(p.len(), |k: int| rows[p[k]])
}

/// `out` is `rows` sorted stably by `by` in direction `order`.
pub open spec fn is_stable_sort(out: Seq<ProcessRow>, rows: Seq<ProcessRow>, by: SortBy, order: Order) -> bool {
    exists|p: Seq<int>| is_sort_permutation(p, rows, by, order) && out == permuted(rows, p)
}

/// No row precedes itself.
pub proof fn lemma_precedes_irreflexive(a: ProcessRow, by: SortBy, order: Order)
    ensures
        !precedes(a, a, by, order),
{
    lemma_lex_irreflexive(a.name@);
}

/// `precedes` is transitive.
pub proof fn lemma_precedes_transitive(a: ProcessRow, b: ProcessRow, c: ProcessRow, by: SortBy, order: Order)
    requires
        precedes(a, b, by, order),
        precedes(b, c, by, order),
    ensures
        precedes(a, c, by, order),
{
    if by == SortBy::Name {
        match order {
            Order::Asc => lemma_lex_transitive(a.name@, b.name@, c.name@),
            Order::Desc => lemma_lex_transitive(c.name@, b.name@, a.name@),
        }
    }
}

/// `precedes` is a strict weak order: if `a` precedes `b` and `c` does not,
/// then `a` precedes `c`.
pub proof fn lemma_precedes_weak(a: ProcessRow, b: ProcessRow, c: ProcessRow, by: SortBy, order: Order)
    requires
        precedes(a, b, by, order),
        !precedes(c, b, by, order),
    ensures
        precedes(a, c, by, order),
{
    if by == SortBy::Name {
        match order {
            Order::Asc => {
                if !lex_less(b.name@, c.name@) {
                    lemma_lex_total(b.name@, c.name@);
                } else {
                    lemma_lex_transitive(a.name@, b.name@, c.name@);
                }
            },
            Order::Desc => {
                if !lex_less(c.name@, b.name@) {
                    lemma_lex_total(b.name@, c.name@);
                } else {
                    lemma_lex_transitive(c.name@, b.name@, a.name@);
                }
            },
        }
    }
}

/// Two rows that precede each other do not exist.
pub proof fn lemma_precedes_asymmetric(a: ProcessRow, b: ProcessRow, by: SortBy, order: Order)
    requires
        precedes(a, b, by, order),
    ensures
        !precedes(b, a, by, order),
{
    if precedes(b, a, by, order) {
        lemma_precedes_transitive(a, b, a, by, order);
        lemma_precedes_irreflexive(a, by, order);
    }
}

/// Decides `precedes(*a, *b, by, order)`; `an` and `bn` hold the rows' names.
fn precedes_exec(
    a: &ProcessRow,
    an: &Vec<char>,
    b: &ProcessRow,
    bn: &Vec<char>,
    by: SortBy,
    order: Order,
) -> (res: bool)
    requires
        an@ == a.name@,
        bn@ == b.name@,
    ensures
        res == precedes(*a, *b, by, order),
{
    match order {
        Order::Asc => match by {
            SortBy::Pid => a.pid < b.pid,
            SortBy::Name => lex_less_chars(an, bn),
            SortBy::Cpu => canonical(a.cpu) < canonical(b.cpu),
            SortBy::Ram => canonical(a.mem) < canonical(b.mem),
            SortBy::RamPercent => canonical(a.ram_percent) < canonical(b.ram_percent),
        },
        Order::Desc => match by {
            SortBy::Pid => b.pid < a.pid,
            SortBy::Name => lex_less_chars(bn, an),
            SortBy::Cpu => canonical(b.cpu) < canonical(a.cpu),
            SortBy::Ram => canonical(b.mem) < canonical(a.mem),
            SortBy::RamPercent => canonical(b.ram_percent) < canonical(a.ram_percent),
        },
    }
}

/// The indices of `rows` in the order of a stable sort by `by` in direction `order`.
pub fn sorted_order(rows: &Vec<ProcessRow>, by: SortBy, order: Order) -> (res: Vec<usize>)
    ensures
        is_sort_permutation(res@.map_values(|i: usize| i as int), rows@, by, order),
{
    let n = rows.len();
    let mut names: Vec<Vec<char>> = Vec::new();
    for k in 0..n
        invariant
            n == rows.len(),
            names.len() == k,
            forall|j: int| 0 <= j < k ==> (#[trigger] names@[j])@ == rows@[j].name@,
    {
        names.push(chars_of(rows[k].name.as_str()));
    }
    let mut perm: Vec<usize> = Vec::new();
    for i in 0..n
        invariant
            n == rows.len(),
            names.len() == n,
            forall|j: int| 0 <= j < n ==> (#[trigger] names@[j])@ == rows@[j].name@,
            perm.len() == i,
            forall|k: int| 0 <= k < perm.len() ==> #[trigger] perm@[k] < i,
            forall|k: int, l: int|
                #![trigger perm@[k], perm@[l]]
                0 <= k < l < perm.len() ==> placed_before(rows@, perm@[k] as int, perm@[l] as int, by, order),
    {
        let mut pos: usize = 0;
        while pos < perm.len() && !precedes_exec(&rows[i], &names[i], &rows[perm[pos]], &names[perm[pos]], by, order)
            invariant
                n == rows.len(),
                names.len() == n,
                forall|j: int| 0 <= j < n ==> (#[trigger] names@[j])@ == rows@[j].name@,
                i < n,
                perm.len() == i,
                forall|k: int| 0 <= k < perm.len() ==> #[trigger] perm@[k] < i,
                pos <= perm.len(),
                forall|k: int| 0 <= k < pos ==> !precedes(rows@[i as int], rows@[#[trigger] perm@[k] as int], by, order),
            decreases perm.len() - pos,
        {
            pos = pos + 1;
        }
        let ghost old_perm = perm@;
        perm.insert(pos, i);
        proof {
            let rs = rows@;
            assert forall|k: int, l: int|
                #![trigger perm@[k], perm@[l]]
                0 <= k < l < perm.len() implies placed_before(rs, perm@[k] as int, perm@[l] as int, by, order) by {
                if l < pos {
                    assert(perm@[k] == old_perm[k] && perm@[l] == old_perm[l]);
                } else if l == pos {
                    assert(perm@[k] == old_perm[k]);
                } else if k > pos {
                    assert(perm@[k] == old_perm[k - 1] && perm@[l] == old_perm[l - 1]);
                } else if k < pos {
                    assert(perm@[k] == old_perm[k] && perm@[l] == old_perm[l - 1]);
                } else {
                    // k == pos: the new index goes before every later one
                    let x = rs[i as int];
                    let b = rs[old_perm[pos as int] as int];
                    let c = rs[old_perm[l - 1] as int];
                    assert(perm@[l] == old_perm[l - 1]);
                    assert(precedes(x, b, by, order));
                    if l - 1 > pos {
                        assert(placed_before(rs, old_perm[pos as int] as int, old_perm[l - 1] as int, by, order));
                        if precedes(b, c, by, order) {
                            lemma_precedes_asymmetric(b, c, by, order);
                        }
                        lemma_precedes_weak(x, b, c, by, order);
                    }
                }
            }
            assert forall|k: int| 0 <= k < perm.len() implies #[trigger] perm@[k] < i + 1 by {
                if k < pos {
                    assert(perm@[k] == old_perm[k]);
                } else if k > pos {
                    assert(perm@[k] == old_perm[k - 1]);
                }
            }
        }
    }
    proof {
        let p = perm@.map_values(|i: usize| i as int);
        assert forall|k: int, l: int|
            #![trigger p[k], p[l]]
            0 <= k < l < p.len() implies placed_before(rows@, p[k], p[l], by, order) by {
            assert(p[k] == perm@[k] as int && p[l] == perm@[l] as int);
        }
        assert forall|k: int| 0 <= k < p.len() implies 0 <= #[trigger] p[k] < rows@.len() by {
            assert(p[k] == perm@[k] as int);
        }
    }
    perm
}

/// `rows` sorted stably by `by` in direction `order`.
pub fn sort_rows(rows: &Vec<ProcessRow>, by: SortBy, order: Order) -> (res: Vec<ProcessRow>)
    ensures
        is_stable_sort(res@, rows@, by, order),
{
    let perm = sorted_order(rows, by, order);
    let ghost p = perm@.map_values(|i: usize| i as int);
    let mut out: Vec<ProcessRow> = Vec::new();
    for k in 0..perm.len()
        invariant
            p == perm@.map_values(|i: usize| i as int),
            is_sort_permutation(p, rows@, by, order),
            out@ =~= permuted(rows@, p).take(k as int),
    {
        assert(p[k as int] == perm@[k as int] as int);
        let r = rows[perm[k]].duplicate();
        out.push(r);
        assert(out@ =~= permuted(rows@, p).take(k as int + 1));
    }
    assert(out@ =~= permuted(rows@, p));
    out
}

/// The name the table gives a process whose name could not be read.
pub open spec fn unnamed() -> Seq<char> {
    seq!['N', '/', 'A']
}

/// The row belongs in the table: its process name was read.
pub open spec fn is_named(r: ProcessRow) -> bool {
    r.name@ != unnamed()
}

/// The rows of `rows` that belong in the table, in their order.
pub open spec fn visible(rows: Seq<ProcessRow>) -> Seq<ProcessRow> {
    rows.filter(|r: ProcessRow| is_named(r))
}

/// Whether a process name read as `name` belongs in the table (it is not `N/A`).
pub fn is_shown_name(name: &String) -> (res: bool)
    ensures
        res == (name@ != unnamed()),
{
    let na = String::from_str("N/A");
    proof {
        reveal_strlit("N/A");
        assert(na@ =~= unnamed());
    }
    *name != na
}

/// Drops the rows whose name is `N/A`, keeping the others in order.
pub fn visible_rows(rows: &Vec<ProcessRow>) -> (res: Vec<ProcessRow>)
    ensures
        res@ == visible(rows@),
{
    let na = String::from_str("N/A");
    proof {
        reveal_strlit("N/A");
        assert(na@ =~= unnamed());
    }
    let mut out: Vec<ProcessRow> = Vec::new();
    for i in 0..rows.len()
        invariant
            na@ == unnamed(),
            out@ == visible(rows@.take(i as int)),
    {
        proof {
            reveal(Seq::filter);
            assert(rows@.take(i as int + 1).drop_last() =~= rows@.take(i as int));
        }
        if rows[i].name != na {
            out.push(rows[i].duplicate());
        }
    }
    assert(rows@.take(rows@.len() as int) =~= rows@);
    out
}

/// The first `n` elements of `s`, or all of `s` when it is shorter.
pub open spec fn first_n(s: Seq<ProcessRow>, n: nat) -> Seq<ProcessRow> {
    if n < s.len() {
        s.take(n as int)
    } else {
        s
    }
}

/// The rows shown by the table: the rows with a name, sorted stably by `by` in
/// direction `order`, at most `limit` of them.
pub fn select_rows(rows: &Vec<ProcessRow>, by: SortBy, order: Order, limit: usize) -> (res: Vec<ProcessRow>)
    ensures
        exists|sorted: Seq<ProcessRow>|
            is_stable_sort(sorted, visible(rows@), by, order) && res@ == first_n(sorted, limit as nat),
        res@.len() == if (limit as nat) < visible(rows@).len() { limit as nat } else { visible(rows@).len() },
        forall|k: int| 0 <= k < res@.len() ==> is_named(#[trigger] res@[k]),
        forall|k: int, l: int|
            0 <= k < l < res@.len() ==> !precedes(#[trigger] res@[l], #[trigger] res@[k], by, order),
{
    let shown = visible_rows(rows);
    let mut sorted = sort_rows(&shown, by, order);
    let ghost full = sorted@;
    proof {
        lemma_stable_sort_ordered(full, shown@, by, order);
        let p = choose|p: Seq<int>| is_sort_permutation(p, shown@, by, order) && full == permuted(shown@, p);
        assert forall|k: int| 0 <= k < full.len() implies is_named(#[trigger] full[k]) by {
            assert(full[k] == shown@[p[k]]);
            rows@.lemma_filter_pred(|r: ProcessRow| is_named(r), p[k]);
        }
    }
    sorted.truncate(limit);
    assert(sorted@ == first_n(full, limit as nat));
    sorted
}

/// `placed_before` is asymmetric.
proof fn lemma_placed_before_asymmetric(rows: Seq<ProcessRow>, i: int, j: int, by: SortBy, order: Order)
    requires
        placed_before(rows, i, j, by, order),
    ensures
        !placed_before(rows, j, i, by, order),
{
    if precedes(rows[i], rows[j], by, order) {
        lemma_precedes_asymmetric(rows[i], rows[j], by, order);
    }
}

/// `n` distinct indices below `n` are all of them.
proof fn lemma_distinct_indices_cover(p: Seq<int>, n: int, x: int)
    requires
        p.len() == n,
        forall|k: int| 0 <= k < p.len() ==> 0 <= #[trigger] p[k] < n,
        p.no_duplicates(),
        0 <= x < n,
    ensures
        p.contains(x),
{
    p.unique_seq_to_set();
    let range = vstd::set_lib::set_int_range(0, n);
    vstd::set_lib::lemma_int_range(0, n);
    assert(p.to_set().subset_of(range)) by {
        assert forall|y: int| p.to_set().contains(y) implies range.contains(y) by {
            let k = choose|k: int| 0 <= k < p.len() && p[k] == y;
            assert(0 <= p[k] < n);
        }
    }
    vstd::set_lib::lemma_subset_equality(p.to_set(), range);
    assert(range.contains(x));
    assert(p.to_set().contains(x));
}

/// The entries of a sort permutation are distinct.
proof fn lemma_sort_permutation_distinct(p: Seq<int>, rows: Seq<ProcessRow>, by: SortBy, order: Order)
    requires
        is_sort_permutation(p, rows, by, order),
    ensures
        p.no_duplicates(),
{
    assert forall|k: int, l: int| 0 <= k < p.len() && 0 <= l < p.len() && k != l implies p[k] != p[l] by {
        if p[k] == p[l] {
            lemma_precedes_irreflexive(rows[p[k]], by, order);
            if k < l {
                assert(placed_before(rows, p[k], p[l], by, order));
            } else {
                assert(placed_before(rows, p[l], p[k], by, order));
            }
        }
    }
}

/// A sort permutation lists every index of `rows`.
pub proof fn lemma_sort_permutation_covers(p: Seq<int>, rows: Seq<ProcessRow>, by: SortBy, order: Order, x: int)
    requires
        is_sort_permutation(p, rows, by, order),
        0 <= x < rows.len(),
    ensures
        p.contains(x),
{
    lemma_sort_permutation_distinct(p, rows, by, order);
    lemma_distinct_indices_cover(p, rows.len() as int, x);
}

/// Taking the rows in the order of distinct indices that cover them keeps the
/// multiset of rows.
proof fn lemma_permuted_multiset(rows: Seq<ProcessRow>, p: Seq<int>)
    requires
        p.len() == rows.len(),
        forall|k: int| 0 <= k < p.len() ==> 0 <= #[trigger] p[k] < rows.len(),
        p.no_duplicates(),
    ensures
        permuted(rows, p).to_multiset() == rows.to_multiset(),
    decreases rows.len(),
{
    let n = rows.len() as int;
    if n == 0 {
        assert(permuted(rows, p) =~= rows);
    } else {
        lemma_distinct_indices_cover(p, n, n - 1);
        let m = choose|m: int| 0 <= m < p.len() && p[m] == n - 1;
        let q = p.remove(m);
        let init = rows.drop_last();
        assert forall|k: int| 0 <= k < q.len() implies 0 <= #[trigger] q[k] < init.len() by {
            if k < m {
                assert(q[k] == p[k] && p[k] != p[m]);
            } else {
                assert(q[k] == p[k + 1] && p[k + 1] != p[m]);
            }
        }
        assert(q.no_duplicates()) by {
            assert forall|k: int, l: int| 0 <= k < q.len() && 0 <= l < q.len() && k != l implies q[k] != q[l] by {
                let kk = if k < m { k } else { k + 1 };
                let ll = if l < m { l } else { l + 1 };
                assert(q[k] == p[kk] && q[l] == p[ll]);
            }
        }
        lemma_permuted_multiset(init, q);
        assert(permuted(rows, p) =~= permuted(init, q).insert(m, rows[n - 1])) by {
            assert forall|k: int| 0 <= k < p.len() implies #[trigger] permuted(rows, p)[k] == permuted(init, q).insert(m, rows[n - 1])[k] by {
                if k < m {
                    assert(q[k] == p[k]);
                } else if k > m {
                    assert(q[k - 1] == p[k]);
                }
            }
        }
        vstd::seq_lib::to_multiset_insert(permuted(init, q), m, rows[n - 1]);
        assert(rows =~= init.push(rows[n - 1]));
        vstd::seq_lib::to_multiset_build(init, rows[n - 1]);
    }
}

/// A stable sort neither adds, drops nor duplicates rows: it holds the same
/// multiset of rows as its input.
pub proof fn lemma_stable_sort_same_rows(out: Seq<ProcessRow>, rows: Seq<ProcessRow>, by: SortBy, order: Order)
    requires
        is_stable_sort(out, rows, by, order),
    ensures
        out.to_multiset() == rows.to_multiset(),
{
    let p = choose|p: Seq<int>| is_sort_permutation(p, rows, by, order) && out == permuted(rows, p);
    lemma_sort_permutation_distinct(p, rows, by, order);
    lemma_permuted_multiset(rows, p);
}

/// Two sort permutations of the same rows agree on their first `k` entries.
proof fn lemma_sort_permutations_agree(
    p: Seq<int>,
    q: Seq<int>,
    rows: Seq<ProcessRow>,
    by: SortBy,
    order: Order,
    k: int,
)
    requires
        is_sort_permutation(p, rows, by, order),
        is_sort_permutation(q, rows, by, order),
        0 <= k <= p.len(),
    ensures
        forall|j: int| 0 <= j < k ==> p[j] == q[j],
    decreases k,
{
    if k > 0 {
        lemma_sort_permutations_agree(p, q, rows, by, order, k - 1);
        let a = p[k - 1];
        let b = q[k - 1];
        if a != b {
            // the one placed first occurs later in the other listing: a contradiction
            if placed_before(rows, a, b, by, order) {
                lemma_sort_permutation_covers(q, rows, by, order, a);
                let m = choose|m: int| 0 <= m < q.len() && q[m] == a;
                if m < k - 1 {
                    assert(p[m] == a);
                    assert(placed_before(rows, p[m], p[k - 1], by, order));
                    lemma_placed_before_asymmetric(rows, a, a, by, order);
                } else {
                    assert(placed_before(rows, q[k - 1], q[m], by, order));
                    lemma_placed_before_asymmetric(rows, a, b, by, order);
                }
            } else {
                assert(placed_before(rows, b, a, by, order));
                lemma_sort_permutation_covers(p, rows, by, order, b);
                let m = choose|m: int| 0 <= m < p.len() && p[m] == b;
                if m < k - 1 {
                    assert(q[m] == b);
                    assert(placed_before(rows, q[m], q[k - 1], by, order));
                    lemma_placed_before_asymmetric(rows, b, b, by, order);
                } else {
                    assert(placed_before(rows, p[k - 1], p[m], by, order));
                    lemma_placed_before_asymmetric(rows, b, a, by, order);
                }
            }
        }
    }
}

/// A stable sort has exactly one outcome: two stable sorts of the same rows
/// by the same column and direction are equal.
pub proof fn lemma_stable_sort_unique(
    out1: Seq<ProcessRow>,
    out2: Seq<ProcessRow>,
    rows: Seq<ProcessRow>,
    by: SortBy,
    order: Order,
)
    requires
        is_stable_sort(out1, rows, by, order),
        is_stable_sort(out2, rows, by, order),
    ensures
        out1 == out2,
{
    let p = choose|p: Seq<int>| is_sort_permutation(p, rows, by, order) && out1 == permuted(rows, p);
    let q = choose|q: Seq<int>| is_sort_permutation(q, rows, by, order) && out2 == permuted(rows, q);
    lemma_sort_permutations_agree(p, q, rows, by, order, p.len() as int);
    assert(p =~= q);
}

/// In a stable sort no row is listed after a row it precedes, and the sort keeps
/// the number of rows.
pub proof fn lemma_stable_sort_ordered(out: Seq<ProcessRow>, rows: Seq<ProcessRow>, by: SortBy, order: Order)
    requires
        is_stable_sort(out, rows, by, order),
    ensures
        out.len() == rows.len(),
        forall|k: int, l: int|
            0 <= k < l < out.len() ==> !precedes(#[trigger] out[l], #[trigger] out[k], by, order),
{
    let p = choose|p: Seq<int>| is_sort_permutation(p, rows, by, order) && out == permuted(rows, p);
    assert forall|k: int, l: int| 0 <= k < l < out.len() implies !precedes(#[trigger] out[l], #[trigger] out[k], by, order) by {
        assert(placed_before(rows, p[k], p[l], by, order));
        if precedes(rows[p[k]], rows[p[l]], by, order) {
            lemma_precedes_asymmetric(rows[p[k]], rows[p[l]], by, order);
        }
    }
}

/// Sorting rows that are already sorted leaves them as they are.
pub proof fn lemma_stable_sort_idempotent(out: Seq<ProcessRow>, rows: Seq<ProcessRow>, by: SortBy, order: Order)
    requires
        is_stable_sort(out, rows, by, order),
    ensures
        is_stable_sort(out, out, by, order),
{
    lemma_stable_sort_ordered(out, rows, by, order);
    let id = Seq::new(out.len(), |k: int| k);
    assert(is_sort_permutation(id, out, by, order));
    assert(out =~= permuted(out, id));
}

/// No two rows tie in column `by`.
pub open spec fn keys_distinct(rows: Seq<ProcessRow>, by: SortBy) -> bool {
    forall|i: int, j: int|
        #![trigger rows[i], rows[j]]
        0 <= i < rows.len() && 0 <= j < rows.len() && i != j ==> key_less(rows[i], rows[j], by) || key_less(rows[j], rows[i], by)
}

/// When no two rows tie, the descending table is the ascending one reversed.
pub proof fn lemma_descending_reverses_ascending(
    asc: Seq<ProcessRow>,
    desc: Seq<ProcessRow>,
    rows: Seq<ProcessRow>,
    by: SortBy,
)
    requires
        keys_distinct(rows, by),
        is_stable_sort(asc, rows, by, Order::Asc),
        is_stable_sort(desc, rows, by, Order::Desc),
    ensures
        desc == asc.reverse(),
{
    let p = choose|p: Seq<int>| is_sort_permutation(p, rows, by, Order::Asc) && asc == permuted(rows, p);
    let n = p.len();
    let q = p.reverse();
    assert forall|k: int, l: int| #![trigger q[k], q[l]] 0 <= k < l < q.len() implies placed_before(rows, q[k], q[l], by, Order::Desc) by {
        assert(q[k] == p[n - 1 - k] && q[l] == p[n - 1 - l]);
        assert(placed_before(rows, p[n - 1 - l], p[n - 1 - k], by, Order::Asc));
        lemma_precedes_irreflexive(rows[q[k]], by, Order::Asc);
    }
    assert forall|k: int| 0 <= k < q.len() implies 0 <= #[trigger] q[k] < rows.len() by {
        assert(q[k] == p[n - 1 - k]);
    }
    assert(is_sort_permutation(q, rows, by, Order::Desc));
    assert(permuted(rows, q) =~= asc.reverse());
    lemma_stable_sort_unique(desc, permuted(rows, q), rows, by, Order::Desc);
}

} // verus!

verus! {

/// Measurement columns compare by their keys as numbers, except that the key
/// of negative zero (`0x7FFF_FFFF_FFFF_FFFF`) ties with that of zero
/// (`0x8000_0000_0000_0000`); PIDs compare as numbers.
pub proof fn lemma_key_less_by_value(a: ProcessRow, b: ProcessRow)
    ensures
        key_less(a, b, SortBy::Pid) <==> a.pid < b.pid,
        key_less(a, b, SortBy::Cpu) <==> (a.cpu < b.cpu && !(a.cpu == 0x7FFF_FFFF_FFFF_FFFFu64
            && b.cpu == 0x8000_0000_0000_0000u64)),
        key_less(a, b, SortBy::Ram) <==> (a.mem < b.mem && !(a.mem == 0x7FFF_FFFF_FFFF_FFFFu64
            && b.mem == 0x8000_0000_0000_0000u64)),
        key_less(a, b, SortBy::RamPercent) <==> (a.ram_percent < b.ram_percent && !(a.ram_percent
            == 0x7FFF_FFFF_FFFF_FFFFu64 && b.ram_percent == 0x8000_0000_0000_0000u64)),
        key_less(a, b, SortBy::Name) <==> lex_less(a.name@, b.name@),
{
}

/// The key of a row in one of the measurement columns (`cpu` for any other column).
pub open spec fn column_key(r: ProcessRow, by: SortBy) -> u64 {
    match by {
        SortBy::Ram => r.mem,
        SortBy::RamPercent => r.ram_percent,
        _ => r.cpu,
    }
}

/// A stable sort by a measurement column lists the keys in order: rising for
/// `Asc`, falling for `Desc`, apart from zero and negative zero, which tie and
/// may come in either order.
pub proof fn lemma_sorted_by_measurement(out: Seq<ProcessRow>, rows: Seq<ProcessRow>, by: SortBy, order: Order)
    requires
        is_stable_sort(out, rows, by, order),
        by == SortBy::Cpu || by == SortBy::Ram || by == SortBy::RamPercent,
    ensures
        forall|k: int, l: int| 0 <= k < l < out.len() ==> {
            let x = column_key(#[trigger] out[k], by);
            let y = column_key(#[trigger] out[l], by);
            ||| (order == Order::Asc && x <= y)
            ||| (order == Order::Desc && y <= x)
            ||| (x == 0x7FFF_FFFF_FFFF_FFFFu64 && y == 0x8000_0000_0000_0000u64)
            ||| (x == 0x8000_0000_0000_0000u64 && y == 0x7FFF_FFFF_FFFF_FFFFu64)
        },
{
    lemma_stable_sort_ordered(out, rows, by, order);
    assert forall|k: int, l: int| 0 <= k < l < out.len() implies {
        let x = column_key(#[trigger] out[k], by);
        let y = column_key(#[trigger] out[l], by);
        ||| (order == Order::Asc && x <= y)
        ||| (order == Order::Desc && y <= x)
        ||| (x == 0x7FFF_FFFF_FFFF_FFFFu64 && y == 0x8000_0000_0000_0000u64)
        ||| (x == 0x8000_0000_0000_0000u64 && y == 0x7FFF_FFFF_FFFF_FFFFu64)
    } by {
        assert(!precedes(out[l], out[k], by, order));
        lemma_key_less_by_value(out[l], out[k]);
        lemma_key_less_by_value(out[k], out[l]);
    }
}

} // verus!
