//! The rules of the history store over a snapshot of its rows: the order in
//! which entries are listed, which unpinned entries a trim removes, what a
//! wipe removes, and which rows a repeated copy bumps instead of inserting.
use vstd::prelude::*;
use vstd::set_lib::{set_int_range, lemma_int_range, lemma_map_size, lemma_len_subset};
use crate::db::Entry;
use crate::text::{chars_of, chars_eq};

verus! {

/// Whether `a` is listed before `b`: pinned entries first, then newest first.
pub open spec fn listed_before(a: Entry, b: Entry) -> bool {
    (a.pinned && !b.pinned) || (a.pinned == b.pinned && a.ts_micros > b.ts_micros)
}

/// Where `e` goes in the listing `t`: before the first entry it precedes.
pub open spec fn insert_pos(t: Seq<Entry>, e: Entry) -> int
    decreases t.len(),
{
    if t.len() == 0 {
        0
    } else if listed_before(e, t[0]) {
        0
    } else {
        1 + insert_pos(t.drop_first(), e)
    }
}

/// The rows in listing order; rows that tie keep the order they came in.
pub open spec fn listing(rows: Seq<Entry>) -> Seq<Entry>
    decreases rows.len(),
{
    if rows.len() == 0 {
        seq![]
    } else {
        let t = listing(rows.drop_last());
        t.insert(insert_pos(t, rows.last()), rows.last())
    }
}

/// What `fetch` returns: the listing, cut to `limit` entries unless `limit`
/// is negative (SQL's `LIMIT -1` means no limit).
pub open spec fn fetch_spec(rows: Seq<Entry>, limit: i64) -> Seq<Entry> {
    let l = listing(rows);
    if limit < 0 || limit >= l.len() {
        l
    } else {
        l.take(limit as int)
    }
}

/// Whether `t` is in listing order.
pub open spec fn listed_in_order(t: Seq<Entry>) -> bool {
    forall|i: int, j: int| 0 <= i < j < t.len() ==> !listed_before(#[trigger] t[j], #[trigger] t[i])
}

pub fn before(a: &Entry, b: &Entry) -> (r: bool)
    ensures
        r == listed_before(*a, *b),
{
    (a.pinned && !b.pinned) || (a.pinned == b.pinned && a.ts_micros > b.ts_micros)
}

proof fn lemma_insert_pos(t: Seq<Entry>, e: Entry, j: int)
    requires
        0 <= j <= t.len(),
        forall|k: int| 0 <= k < j ==> !listed_before(e, #[trigger] t[k]),
        j == t.len() || listed_before(e, t[j]),
    ensures
        insert_pos(t, e) == j,
    decreases j,
{
    if j > 0 {
        lemma_insert_pos(t.drop_first(), e, j - 1);
    }
}

proof fn lemma_insert_pos_bounds(t: Seq<Entry>, e: Entry)
    ensures
        0 <= insert_pos(t, e) <= t.len(),
        forall|k: int| 0 <= k < insert_pos(t, e) ==> !listed_before(e, #[trigger] t[k]),
        insert_pos(t, e) < t.len() ==> listed_before(e, t[insert_pos(t, e)]),
    decreases t.len(),
{
    if t.len() > 0 && !listed_before(e, t[0]) {
        lemma_insert_pos_bounds(t.drop_first(), e);
        assert forall|k: int| 0 <= k < insert_pos(t, e) implies !listed_before(e, #[trigger] t[k]) by {
            if k > 0 {
                assert(t[k] == t.drop_first()[k - 1]);
            }
        }
    }
}

/// The rows in listing order, cut to `limit` unless it is negative:
/// `SELECT * FROM entries ORDER BY pinned DESC, ts DESC LIMIT limit`.
pub fn fetch_order(rows: Vec<Entry>, limit: i64) -> (r: Vec<Entry>)
    ensures
        r@ == fetch_spec(rows@, limit),
{
    let ghost orig = rows@;
    let mut rows = rows;
    let mut out: Vec<Entry> = Vec::new();
    let mut i: usize = 0;
    let n: usize = rows.len();
    assert(orig.skip(0) =~= orig);
    assert(orig.take(0) =~= Seq::<Entry>::empty());
    while rows.len() > 0
        invariant
            n == orig.len(),
            i + rows@.len() == n,
            rows@ == orig.skip(i as int),
            out@ == listing(orig.take(i as int)),
        decreases rows@.len(),
    {
        let e = rows.remove(0);
        assert(e == orig[i as int]);
        let mut j: usize = 0;
        while j < out.len() && !before(&e, &out[j])
            invariant
                j <= out@.len(),
                forall|k: int| 0 <= k < j ==> !listed_before(e, #[trigger] out@[k]),
            decreases out@.len() - j,
        {
            j = j + 1;
        }
        proof {
            lemma_insert_pos(out@, e, j as int);
            assert(orig.take(i + 1).drop_last() =~= orig.take(i as int));
            assert(orig.take(i + 1).last() == e);
            assert(rows@ =~= orig.skip(i + 1));
        }
        out.insert(j, e);
        i = i + 1;
    }
    assert(orig.take(n as int) =~= orig);
    if limit >= 0 && (limit as u64) < (out.len() as u64) {
        out.truncate(limit as usize);
    }
    out
}

proof fn lemma_listing_step(t: Seq<Entry>, e: Entry)
    requires
        listed_in_order(t),
    ensures
        listed_in_order(t.insert(insert_pos(t, e), e)),
{
    lemma_insert_pos_bounds(t, e);
    let p = insert_pos(t, e);
    let u = t.insert(p, e);
    assert forall|i: int, j: int| 0 <= i < j < u.len() implies !listed_before(
        #[trigger] u[j],
        #[trigger] u[i],
    ) by {
        if j < p {
            assert(u[i] == t[i] && u[j] == t[j]);
        } else if j == p {
            assert(u[i] == t[i]);
        } else if i < p {
            assert(u[i] == t[i] && u[j] == t[j - 1]);
        } else if i == p {
            assert(u[j] == t[j - 1]);
            assert(listed_before(e, t[p]));
            if j - 1 > p {
                assert(!listed_before(t[j - 1], t[p]));
            }
        } else {
            assert(u[i] == t[i - 1] && u[j] == t[j - 1]);
        }
    }
}

/// The listing is in listing order: every pinned entry comes before every
/// unpinned one, and within each group newer entries come first.
pub proof fn lemma_listing_in_order(rows: Seq<Entry>)
    ensures
        listed_in_order(listing(rows)),
    decreases rows.len(),
{
    if rows.len() > 0 {
        lemma_listing_in_order(rows.drop_last());
        lemma_listing_step(listing(rows.drop_last()), rows.last());
    }
}

/// The listing holds exactly the rows, each as often as it occurs.
pub proof fn lemma_listing_permutes(rows: Seq<Entry>)
    ensures
        listing(rows).to_multiset() == rows.to_multiset(),
    decreases rows.len(),
{
    broadcast use vstd::seq_lib::group_to_multiset_ensures;

    if rows.len() > 0 {
        lemma_listing_permutes(rows.drop_last());
        let t = listing(rows.drop_last());
        lemma_insert_pos_bounds(t, rows.last());
        vstd::seq_lib::to_multiset_insert(t, insert_pos(t, rows.last()), rows.last());
        assert(rows =~= rows.drop_last().push(rows.last()));
    }
}

/// What `fetch` lists: pinned entries first, newest first within each group,
/// and, unless cut by the limit, every row exactly once.
pub proof fn lemma_fetch_lists_pinned_first(rows: Seq<Entry>, limit: i64)
    ensures
        listed_in_order(fetch_spec(rows, limit)),
        forall|i: int, j: int|
            0 <= i < j < fetch_spec(rows, limit).len() && (#[trigger] fetch_spec(rows, limit)[j]).pinned
                ==> (#[trigger] fetch_spec(rows, limit)[i]).pinned,
        (limit < 0 || limit >= rows.len()) ==> fetch_spec(rows, limit).to_multiset()
            == rows.to_multiset(),
        fetch_spec(rows, limit).len() == (if 0 <= limit < rows.len() {
            limit as int
        } else {
            rows.len() as int
        }),
{
    broadcast use vstd::seq_lib::group_to_multiset_ensures;

    lemma_listing_in_order(rows);
    lemma_listing_permutes(rows);
    let l = listing(rows);
    assert(l.len() == rows.len()) by {
        assert(l.to_multiset().len() == rows.to_multiset().len());
    }
    let f = fetch_spec(rows, limit);
    assert forall|i: int, j: int| 0 <= i < j < f.len() implies !listed_before(
        #[trigger] f[j],
        #[trigger] f[i],
    ) by {
        assert(f[i] == l[i] && f[j] == l[j]);
    }
}


/// Whether row `k` counts against row `i` when trimming: it is unpinned and
/// newer, or as new and earlier in the snapshot.
pub open spec fn trim_precedes(rows: Seq<Entry>, k: int, i: int) -> bool {
    &&& !rows[k].pinned
    &&& (rows[k].ts_micros > rows[i].ts_micros || (rows[k].ts_micros == rows[i].ts_micros && k
        < i))
}

/// How many of the first `n` rows count against row `i`.
pub open spec fn newer_count(rows: Seq<Entry>, i: int, n: int) -> nat
    decreases n,
{
    if n <= 0 {
        0
    } else {
        newer_count(rows, i, n - 1) + (if trim_precedes(rows, n - 1, i) {
            1nat
        } else {
            0nat
        })
    }
}

/// Whether a trim to `max` unpinned entries removes row `i`: it is unpinned
/// and at least `max` unpinned rows are newer.
pub open spec fn is_trimmed(rows: Seq<Entry>, max: nat, i: int) -> bool {
    !rows[i].pinned && newer_count(rows, i, rows.len() as int) >= max
}

/// The ids a trim removes among the first `n` rows, in row order.
pub open spec fn trim_victims_upto(rows: Seq<Entry>, max: nat, n: int) -> Seq<i64>
    decreases n,
{
    if n <= 0 {
        seq![]
    } else {
        let prev = trim_victims_upto(rows, max, n - 1);
        if is_trimmed(rows, max, n - 1) {
            prev.push(rows[n - 1].id)
        } else {
            prev
        }
    }
}

/// The ids that `DELETE ... WHERE pinned=0 AND id NOT IN (SELECT id ...
/// WHERE pinned=0 ORDER BY ts DESC LIMIT max)` removes.
pub open spec fn trim_victims_spec(rows: Seq<Entry>, max: nat) -> Seq<i64> {
    trim_victims_upto(rows, max, rows.len() as int)
}

/// Ids of the unpinned rows beyond the `max` newest ones.
pub fn trim_victims(rows: &Vec<Entry>, max: usize) -> (r: Vec<i64>)
    ensures
        r@ == trim_victims_spec(rows@, max as nat),
{
    let n: usize = rows.len();
    let mut out: Vec<i64> = Vec::new();
    let mut i: usize = 0;
    while i < n
        invariant
            i <= n == rows@.len(),
            out@ == trim_victims_upto(rows@, max as nat, i as int),
        decreases n - i,
    {
        if !rows[i].pinned {
            let mut count: usize = 0;
            let mut k: usize = 0;
            while k < n
                invariant
                    k <= n == rows@.len(),
                    i < n,
                    count == newer_count(rows@, i as int, k as int),
                    count <= k,
                decreases n - k,
            {
                let r = &rows[k];
                let t = &rows[i];
                if !r.pinned && (r.ts_micros > t.ts_micros || (r.ts_micros == t.ts_micros && k
                    < i)) {
                    count = count + 1;
                }
                k = k + 1;
            }
            if count >= max {
                out.push(rows[i].id);
            }
        }
        i = i + 1;
    }
    out
}

/// A trim never removes a pinned entry.
pub proof fn lemma_trim_keeps_pinned(rows: Seq<Entry>, max: nat, i: int)
    requires
        0 <= i < rows.len(),
        rows[i].pinned,
    ensures
        !is_trimmed(rows, max, i),
{
}

proof fn lemma_count_mono(rows: Seq<Entry>, i: int, j: int, n: int)
    requires
        forall|k: int| 0 <= k < n && trim_precedes(rows, k, j) ==> trim_precedes(rows, k, i),
    ensures
        newer_count(rows, j, n) <= newer_count(rows, i, n),
    decreases n,
{
    if n > 0 {
        lemma_count_mono(rows, i, j, n - 1);
    }
}

proof fn lemma_count_strict(rows: Seq<Entry>, i: int, j: int, n: int, m: int)
    requires
        forall|k: int| 0 <= k < n && trim_precedes(rows, k, j) ==> trim_precedes(rows, k, i),
        0 <= m < n,
        trim_precedes(rows, m, i),
        !trim_precedes(rows, m, j),
    ensures
        newer_count(rows, j, n) + 1 <= newer_count(rows, i, n),
    decreases n,
{
    if m < n - 1 {
        lemma_count_strict(rows, i, j, n - 1, m);
    } else {
        lemma_count_mono(rows, i, j, n - 1);
    }
}

/// When unpinned row `j` is ahead of unpinned row `i` in the trim order,
/// strictly fewer rows count against `j` than against `i`.
proof fn lemma_ahead_fewer(rows: Seq<Entry>, i: int, j: int)
    requires
        0 <= i < rows.len(),
        0 <= j < rows.len(),
        !rows[i].pinned,
        !rows[j].pinned,
        trim_precedes(rows, j, i),
    ensures
        newer_count(rows, j, rows.len() as int) + 1 <= newer_count(rows, i, rows.len() as int),
{
    lemma_count_strict(rows, i, j, rows.len() as int, j);
}

/// Every unpinned entry a trim keeps is at least as new as every entry it
/// removes.
pub proof fn lemma_trim_keeps_newest(rows: Seq<Entry>, max: nat, i: int, j: int)
    requires
        0 <= i < rows.len(),
        0 <= j < rows.len(),
        !rows[i].pinned,
        !is_trimmed(rows, max, i),
        is_trimmed(rows, max, j),
    ensures
        rows[i].ts_micros >= rows[j].ts_micros,
{
    if rows[j].ts_micros > rows[i].ts_micros {
        lemma_ahead_fewer(rows, i, j);
    }
}

/// The unpinned rows that a trim to `max` keeps.
pub open spec fn kept_unpinned(rows: Seq<Entry>, max: nat) -> Set<int> {
    Set::new(|i: int| 0 <= i < rows.len() && !rows[i].pinned && !is_trimmed(rows, max, i))
}

/// After a trim at most `max` unpinned entries remain.
pub proof fn lemma_trim_bound(rows: Seq<Entry>, max: nat)
    ensures
        kept_unpinned(rows, max).finite(),
        kept_unpinned(rows, max).len() <= max,
{
    let n = rows.len() as int;
    let kept = kept_unpinned(rows, max);
    lemma_int_range(0, n);
    lemma_len_subset(kept, set_int_range(0, n));
    let f = |i: int| newer_count(rows, i, n) as int;
    assert forall|a: int, b: int| kept.contains(a) && kept.contains(b) && #[trigger] f(a) == #[trigger] f(
        b,
    ) implies a == b by {
        if a != b {
            if trim_precedes(rows, a, b) {
                lemma_ahead_fewer(rows, b, a);
            } else {
                assert(trim_precedes(rows, b, a));
                lemma_ahead_fewer(rows, a, b);
            }
        }
    }
    lemma_map_size(kept, kept.map(f), f);
    lemma_int_range(0, max as int);
    assert(kept.map(f).subset_of(set_int_range(0, max as int)));
    lemma_len_subset(kept.map(f), set_int_range(0, max as int));
}

/// An id is among the trim victims exactly when a removed row carries it.
pub proof fn lemma_trim_victims_members(rows: Seq<Entry>, max: nat, n: int, x: i64)
    requires
        0 <= n <= rows.len(),
    ensures
        trim_victims_upto(rows, max, n).contains(x) <==> exists|i: int|
            0 <= i < n && is_trimmed(rows, max, i) && rows[i].id == x,
    decreases n,
{
    if n > 0 {
        lemma_trim_victims_members(rows, max, n - 1, x);
        let prev = trim_victims_upto(rows, max, n - 1);
        if is_trimmed(rows, max, n - 1) {
            let q = prev.push(rows[n - 1].id);
            assert(q.contains(x) <==> (prev.contains(x) || rows[n - 1].id == x)) by {
                if q.contains(x) {
                    let k = choose|k: int| 0 <= k < q.len() && #[trigger] q[k] == x;
                    if k < prev.len() {
                        assert(prev[k] == x);
                    }
                }
                if prev.contains(x) {
                    let k = choose|k: int| 0 <= k < prev.len() && #[trigger] prev[k] == x;
                    assert(q[k] == x);
                }
                assert(q[prev.len() as int] == rows[n - 1].id);
            }
        }
    }
}

/// How many of the first `n` rows are unpinned.
pub open spec fn unpinned_upto(rows: Seq<Entry>, n: int) -> nat
    decreases n,
{
    if n <= 0 {
        0
    } else {
        unpinned_upto(rows, n - 1) + (if rows[n - 1].pinned {
            0nat
        } else {
            1nat
        })
    }
}

proof fn lemma_newer_le_unpinned(rows: Seq<Entry>, i: int, n: int)
    requires
        0 <= i < rows.len(),
        0 <= n <= rows.len(),
    ensures
        newer_count(rows, i, n) + (if i < n && !rows[i].pinned {
            1nat
        } else {
            0nat
        }) <= unpinned_upto(rows, n),
    decreases n,
{
    if n > 0 {
        lemma_newer_le_unpinned(rows, i, n - 1);
    }
}

/// A trim removes nothing while at most `max` entries are unpinned.
pub proof fn lemma_trim_spares_small(rows: Seq<Entry>, max: nat, i: int)
    requires
        0 <= i < rows.len(),
        unpinned_upto(rows, rows.len() as int) <= max,
    ensures
        !is_trimmed(rows, max, i),
{
    lemma_newer_le_unpinned(rows, i, rows.len() as int);
}

/// The unpinned rows among the first `n`.
pub open spec fn unpinned_set(rows: Seq<Entry>, n: int) -> Set<int> {
    Set::new(|i: int| 0 <= i < n && !rows[i].pinned)
}

proof fn lemma_unpinned_set_len(rows: Seq<Entry>, n: int)
    requires
        0 <= n <= rows.len(),
    ensures
        unpinned_set(rows, n).finite(),
        unpinned_set(rows, n).len() == unpinned_upto(rows, n),
    decreases n,
{
    if n == 0 {
        assert(unpinned_set(rows, 0) =~= Set::<int>::empty());
    } else {
        lemma_unpinned_set_len(rows, n - 1);
        let prev = unpinned_set(rows, n - 1);
        if rows[n - 1].pinned {
            assert(unpinned_set(rows, n) =~= prev);
        } else {
            assert(unpinned_set(rows, n) =~= prev.insert(n - 1));
            assert(!prev.contains(n - 1));
        }
    }
}

/// A trim to `max` keeps exactly `max` unpinned entries, or all of them when
/// there are no more than `max`.
pub proof fn lemma_trim_keeps_exactly(rows: Seq<Entry>, max: nat)
    ensures
        kept_unpinned(rows, max).finite(),
        kept_unpinned(rows, max).len() == (if unpinned_upto(rows, rows.len() as int) <= max {
            unpinned_upto(rows, rows.len() as int)
        } else {
            max
        }),
{
    let n = rows.len() as int;
    let u = unpinned_upto(rows, n);
    let all = unpinned_set(rows, n);
    let kept = kept_unpinned(rows, max);
    lemma_unpinned_set_len(rows, n);
    assert(kept.subset_of(all));
    vstd::set_lib::lemma_len_subset(kept, all);
    let f = |i: int| newer_count(rows, i, n) as int;
    assert forall|a: int, b: int| all.contains(a) && all.contains(b) && #[trigger] f(a) == #[trigger] f(b) implies a
        == b by {
        if a != b {
            if trim_precedes(rows, a, b) {
                lemma_ahead_fewer(rows, b, a);
            } else {
                assert(trim_precedes(rows, b, a));
                lemma_ahead_fewer(rows, a, b);
            }
        }
    }
    if u <= max {
        assert forall|i: int| all.contains(i) implies kept.contains(i) by {
            lemma_trim_spares_small(rows, max, i);
        }
        assert(kept =~= all);
    } else {
        lemma_map_size(all, all.map(f), f);
        lemma_int_range(0, u as int);
        assert forall|v: int| all.map(f).contains(v) implies set_int_range(0, u as int).contains(v) by {
            let i = choose|i: int| all.contains(i) && f(i) == v;
            lemma_newer_le_unpinned(rows, i, n);
        }
        vstd::set_lib::lemma_subset_equality(all.map(f), set_int_range(0, u as int));
        assert forall|a: int, b: int| kept.contains(a) && kept.contains(b) && #[trigger] f(a) == #[trigger] f(b)
            implies a == b by {
            assert(all.contains(a) && all.contains(b));
        }
        lemma_map_size(kept, kept.map(f), f);
        lemma_int_range(0, max as int);
        assert forall|v: int| #[trigger] set_int_range(0, max as int).contains(v) implies kept.map(f).contains(v) by {
            assert(set_int_range(0, u as int).contains(v));
            assert(all.map(f).contains(v));
            let i = choose|i: int| all.contains(i) && f(i) == v;
            assert(kept.contains(i));
        }
        assert forall|v: int| kept.map(f).contains(v) implies #[trigger] set_int_range(0, max as int).contains(v) by {
            let i = choose|i: int| kept.contains(i) && f(i) == v;
        }
        assert(kept.map(f) =~= set_int_range(0, max as int));
    }
}

/// The ids that a wipe removes: unpinned rows, or every row with `all`.
pub open spec fn wipe_victims_upto(rows: Seq<Entry>, all: bool, n: int) -> Seq<i64>
    decreases n,
{
    if n <= 0 {
        seq![]
    } else {
        let prev = wipe_victims_upto(rows, all, n - 1);
        if all || !rows[n - 1].pinned {
            prev.push(rows[n - 1].id)
        } else {
            prev
        }
    }
}

/// Ids that `wipe` deletes: every row with `all`, else the unpinned ones.
pub fn wipe_victims(rows: &Vec<Entry>, all: bool) -> (r: Vec<i64>)
    ensures
        r@ == wipe_victims_upto(rows@, all, rows@.len() as int),
{
    let mut out: Vec<i64> = Vec::new();
    let mut i: usize = 0;
    while i < rows.len()
        invariant
            i <= rows@.len(),
            out@ == wipe_victims_upto(rows@, all, i as int),
        decreases rows@.len() - i,
    {
        if all || !rows[i].pinned {
            out.push(rows[i].id);
        }
        i = i + 1;
    }
    out
}

/// The rows whose id is not `id`, in order.
pub open spec fn without_id(rows: Seq<Entry>, id: i64) -> Seq<Entry>
    decreases rows.len(),
{
    if rows.len() == 0 {
        seq![]
    } else {
        let prev = without_id(rows.drop_last(), id);
        if rows.last().id == id {
            prev
        } else {
            prev.push(rows.last())
        }
    }
}

/// The panel's entries after deleting entry `id`: the others, in order.
pub fn remove_id(rows: Vec<Entry>, id: i64) -> (r: Vec<Entry>)
    ensures
        r@ == without_id(rows@, id),
{
    let ghost orig = rows@;
    let mut rows = rows;
    let mut out: Vec<Entry> = Vec::new();
    let ghost mut i: int = 0;
    assert(orig.skip(0) =~= orig);
    assert(orig.take(0) =~= Seq::<Entry>::empty());
    while rows.len() > 0
        invariant
            0 <= i <= orig.len(),
            rows@ == orig.skip(i),
            out@ == without_id(orig.take(i), id),
        decreases rows@.len(),
    {
        let e = rows.remove(0);
        proof {
            assert(e == orig[i]);
            assert(orig.take(i + 1).drop_last() =~= orig.take(i));
            assert(orig.take(i + 1).last() == e);
            assert(rows@ =~= orig.skip(i + 1));
        }
        if e.id != id {
            out.push(e);
        }
        proof {
            i = i + 1;
        }
    }
    assert(orig.take(i) =~= orig);
    out
}

/// Whether row `e` stores content with hash `hash`.
pub open spec fn has_hash(e: Entry, hash: Seq<char>) -> bool {
    match e.hash {
        Some(h) => h@ == hash,
        None => false,
    }
}

/// The ids of the rows that hold content with hash `hash`, among the first `n`.
pub open spec fn same_hash_upto(rows: Seq<Entry>, hash: Seq<char>, n: int) -> Seq<i64>
    decreases n,
{
    if n <= 0 {
        seq![]
    } else {
        let prev = same_hash_upto(rows, hash, n - 1);
        if has_hash(rows[n - 1], hash) {
            prev.push(rows[n - 1].id)
        } else {
            prev
        }
    }
}

/// The rows that storing content with `hash` bumps (`UPDATE ... WHERE
/// hash=?`); when there are none, the content is inserted as a new row.
pub fn upsert_targets(rows: &Vec<Entry>, hash: &str) -> (r: Vec<i64>)
    ensures
        r@ == same_hash_upto(rows@, hash@, rows@.len() as int),
{
    let hc = chars_of(hash);
    let mut out: Vec<i64> = Vec::new();
    let mut i: usize = 0;
    while i < rows.len()
        invariant
            i <= rows@.len(),
            hc@ == hash@,
            out@ == same_hash_upto(rows@, hash@, i as int),
        decreases rows@.len() - i,
    {
        match &rows[i].hash {
            Some(h) => {
                let hv = chars_of(h.as_str());
                if chars_eq(&hv, &hc) {
                    out.push(rows[i].id);
                }
            },
            None => {},
        }
        i = i + 1;
    }
    out
}

/// A row after its content was copied again at `now`: the time becomes
/// `now` and the hit count goes up by one; everything else stays.
pub open spec fn bumped_spec(e: Entry, now: i64) -> Entry {
    Entry { ts_micros: now, hits: (e.hits + 1) as i64, ..e }
}

fn clone_opt(o: &Option<String>) -> (r: Option<String>)
    ensures
        r == *o,
{
    match o {
        Some(s) => Some(s.clone()),
        None => None,
    }
}

/// Row `e` bumped by a repeated copy at `now_micros`.
pub fn bumped(e: &Entry, now_micros: i64) -> (r: Entry)
    requires
        e.hits < i64::MAX,
    ensures
        r == bumped_spec(*e, now_micros),
{
    Entry {
        id: e.id,
        content: e.content.clone(),
        kind: e.kind.clone(),
        path: clone_opt(&e.path),
        meta: clone_opt(&e.meta),
        ts_micros: now_micros,
        pinned: e.pinned,
        hits: e.hits + 1,
        hash: clone_opt(&e.hash),
    }
}

/// A row as first stored: id `id`, content hash `hash`, copied at `now`,
/// seen once, not pinned.
pub open spec fn fresh_row(
    id: i64,
    hash: String,
    content: String,
    kind: String,
    path: Option<String>,
    meta: Option<String>,
    now: i64,
) -> Entry {
    Entry { id, content, kind, path, meta, ts_micros: now, pinned: false, hits: 1, hash: Some(hash) }
}

/// How many rows hold content with hash `hash`.
pub open spec fn hash_count(rows: Seq<Entry>, hash: Seq<char>) -> nat {
    same_hash_upto(rows, hash, rows.len() as int).len()
}

/// The rows after storing content with hash `hash` at `now`: the rows that
/// already hold it are bumped; when none does, `fresh` is added.
pub open spec fn after_upsert(rows: Seq<Entry>, hash: Seq<char>, fresh: Entry, now: i64) -> Seq<Entry> {
    if hash_count(rows, hash) == 0 {
        rows.push(fresh)
    } else {
        Seq::new(rows.len(), |i: int| if has_hash(rows[i], hash) { bumped_spec(rows[i], now) } else { rows[i] })
    }
}

proof fn lemma_same_hash_prefix(a: Seq<Entry>, b: Seq<Entry>, hash: Seq<char>, n: int)
    requires
        0 <= n <= a.len(),
        n <= b.len(),
        forall|i: int| 0 <= i < n ==> has_hash(#[trigger] a[i], hash) == has_hash(b[i], hash) && a[i].id == b[i].id,
    ensures
        same_hash_upto(a, hash, n) == same_hash_upto(b, hash, n),
    decreases n,
{
    if n > 0 {
        lemma_same_hash_prefix(a, b, hash, n - 1);
    }
}

/// Storing content never leaves two rows holding it: with at most one row
/// holding `hash` before (the table's unique index on hashes), exactly one
/// does after. That row is the old one bumped (time `now`, one more hit,
/// content, pin and the rest kept), or, when there was none, the fresh row.
/// No other hash gains or loses a row, so one row per hash stays true.
pub proof fn lemma_upsert_keeps_one(
    rows: Seq<Entry>,
    id: i64,
    hash: String,
    content: String,
    kind: String,
    path: Option<String>,
    meta: Option<String>,
    now: i64,
)
    requires
        hash_count(rows, hash@) <= 1,
    ensures
        hash_count(after_upsert(rows, hash@, fresh_row(id, hash, content, kind, path, meta, now), now), hash@) == 1,
        forall|k: int|
            0 <= k < rows.len() && has_hash(#[trigger] rows[k], hash@) ==> after_upsert(
                rows,
                hash@,
                fresh_row(id, hash, content, kind, path, meta, now),
                now,
            )[k] == bumped_spec(rows[k], now),
        hash_count(rows, hash@) == 0 ==> after_upsert(
            rows,
            hash@,
            fresh_row(id, hash, content, kind, path, meta, now),
            now,
        ) == rows.push(fresh_row(id, hash, content, kind, path, meta, now)),
        forall|other: Seq<char>|
            other != hash@ ==> #[trigger] hash_count(
                after_upsert(rows, hash@, fresh_row(id, hash, content, kind, path, meta, now), now),
                other,
            ) == hash_count(rows, other),
{
    let h = hash@;
    let fresh = fresh_row(id, hash, content, kind, path, meta, now);
    let after = after_upsert(rows, h, fresh, now);
    let n = rows.len() as int;
    if hash_count(rows, h) == 0 {
        let p = rows.push(fresh);
        lemma_same_hash_prefix(p, rows, h, n);
        assert(p[n] == fresh);
        assert(has_hash(fresh, h));
        assert(same_hash_upto(p, h, n + 1) == same_hash_upto(p, h, n).push(fresh.id));
        assert forall|k: int| 0 <= k < n implies !has_hash(#[trigger] rows[k], h) by {
            if has_hash(rows[k], h) {
                lemma_same_hash_contains(rows, h, n, k);
            }
        }
        assert forall|other: Seq<char>| other != h implies #[trigger] hash_count(after, other) == hash_count(rows, other) by {
            lemma_same_hash_prefix(p, rows, other, n);
            assert(!has_hash(fresh, other));
        }
    } else {
        assert forall|i: int| 0 <= i < n implies has_hash(#[trigger] after[i], h) == has_hash(rows[i], h)
            && after[i].id == rows[i].id by {}
        lemma_same_hash_prefix(after, rows, h, n);
        assert forall|other: Seq<char>| other != h implies #[trigger] hash_count(after, other) == hash_count(rows, other) by {
            assert forall|i: int| 0 <= i < n implies has_hash(#[trigger] after[i], other) == has_hash(rows[i], other)
                && after[i].id == rows[i].id by {}
            lemma_same_hash_prefix(after, rows, other, n);
        }
    }
}

/// Storing content whose hash is already in the history inserts nothing:
/// the existing row is bumped instead.
pub proof fn lemma_upsert_dedupes(rows: Seq<Entry>, hash: Seq<char>, i: int)
    requires
        0 <= i < rows.len(),
        has_hash(rows[i], hash),
    ensures
        same_hash_upto(rows, hash, rows.len() as int).len() > 0,
        same_hash_upto(rows, hash, rows.len() as int).contains(rows[i].id),
{
    lemma_same_hash_contains(rows, hash, rows.len() as int, i);
}

proof fn lemma_same_hash_contains(rows: Seq<Entry>, hash: Seq<char>, n: int, i: int)
    requires
        0 <= i < n <= rows.len(),
        has_hash(rows[i], hash),
    ensures
        same_hash_upto(rows, hash, n).contains(rows[i].id),
    decreases n,
{
    let prev = same_hash_upto(rows, hash, n - 1);
    if i < n - 1 {
        lemma_same_hash_contains(rows, hash, n - 1, i);
        if has_hash(rows[n - 1], hash) {
            let k = choose|k: int| 0 <= k < prev.len() && prev[k] == rows[i].id;
            assert(prev.push(rows[n - 1].id)[k] == rows[i].id);
        }
    } else {
        assert(prev.push(rows[n - 1].id)[prev.len() as int] == rows[i].id);
    }
}

/// Fetch lists pinned entries before unpinned ones, and within each group
/// the most recently copied first, whatever else the rows hold.
pub proof fn lemma_fetch_newest_first(rows: Seq<Entry>, limit: i64)
    ensures
        forall|i: int, j: int|
            0 <= i < j < fetch_spec(rows, limit).len() && #[trigger] fetch_spec(rows, limit)[i].pinned
                == #[trigger] fetch_spec(rows, limit)[j].pinned ==> fetch_spec(rows, limit)[i].ts_micros
                >= fetch_spec(rows, limit)[j].ts_micros,
        forall|i: int, j: int|
            0 <= i < j < fetch_spec(rows, limit).len() && (#[trigger] fetch_spec(rows, limit)[j]).pinned
                ==> (#[trigger] fetch_spec(rows, limit)[i]).pinned,
{
    lemma_fetch_lists_pinned_first(rows, limit);
    let f = fetch_spec(rows, limit);
    assert forall|i: int, j: int| 0 <= i < j < f.len() && #[trigger] f[i].pinned == #[trigger] f[j].pinned implies f[i].ts_micros
        >= f[j].ts_micros by {
        assert(!listed_before(f[j], f[i]));
    }
}

proof fn lemma_wipe_members(rows: Seq<Entry>, all: bool, n: int, x: i64)
    requires
        0 <= n <= rows.len(),
    ensures
        wipe_victims_upto(rows, all, n).contains(x) <==> exists|i: int|
            0 <= i < n && (all || !rows[i].pinned) && #[trigger] rows[i].id == x,
    decreases n,
{
    if n > 0 {
        lemma_wipe_members(rows, all, n - 1, x);
        let prev = wipe_victims_upto(rows, all, n - 1);
        if all || !rows[n - 1].pinned {
            let q = prev.push(rows[n - 1].id);
            if q.contains(x) {
                let k = choose|k: int| 0 <= k < q.len() && q[k] == x;
                if k < prev.len() {
                    assert(prev[k] == x);
                } else {
                    assert(rows[n - 1].id == x);
                }
            }
            if prev.contains(x) {
                let k = choose|k: int| 0 <= k < prev.len() && prev[k] == x;
                assert(q[k] == x);
            }
            assert(q[prev.len() as int] == rows[n - 1].id);
        }
    }
}

/// A wipe removes every unpinned entry, text or image, and with `all` every
/// entry; it removes nothing else: each id it gives belongs to a row that is
/// unpinned (or any row with `all`).
pub proof fn lemma_wipe_removes_unpinned(rows: Seq<Entry>, all: bool)
    ensures
        forall|i: int|
            0 <= i < rows.len() && (all || !rows[i].pinned) ==> wipe_victims_upto(rows, all, rows.len() as int).contains(
                #[trigger] rows[i].id,
            ),
        forall|x: i64|
            #[trigger] wipe_victims_upto(rows, all, rows.len() as int).contains(x) ==> exists|i: int|
                0 <= i < rows.len() && (all || !rows[i].pinned) && rows[i].id == x,
{
    assert forall|i: int| 0 <= i < rows.len() && (all || !rows[i].pinned) implies wipe_victims_upto(
        rows,
        all,
        rows.len() as int,
    ).contains(#[trigger] rows[i].id) by {
        lemma_wipe_members(rows, all, rows.len() as int, rows[i].id);
    }
    assert forall|x: i64| #[trigger] wipe_victims_upto(rows, all, rows.len() as int).contains(x) implies exists|i: int|
        0 <= i < rows.len() && (all || !rows[i].pinned) && rows[i].id == x by {
        lemma_wipe_members(rows, all, rows.len() as int, x);
    }
}

proof fn lemma_same_hash_members(rows: Seq<Entry>, hash: Seq<char>, n: int, x: i64)
    requires
        0 <= n <= rows.len(),
    ensures
        same_hash_upto(rows, hash, n).contains(x) ==> exists|i: int|
            0 <= i < n && has_hash(rows[i], hash) && #[trigger] rows[i].id == x,
    decreases n,
{
    if n > 0 {
        lemma_same_hash_members(rows, hash, n - 1, x);
        let prev = same_hash_upto(rows, hash, n - 1);
        if has_hash(rows[n - 1], hash) {
            let q = prev.push(rows[n - 1].id);
            if q.contains(x) {
                let k = choose|k: int| 0 <= k < q.len() && q[k] == x;
                if k < prev.len() {
                    assert(prev[k] == x);
                } else {
                    assert(rows[n - 1].id == x);
                }
            }
        }
    }
}

/// A repeated copy bumps every row whose stored hash is the content's hash,
/// pinned or not and whatever its other fields; and only such rows.
pub proof fn lemma_upsert_targets_by_hash(rows: Seq<Entry>, hash: Seq<char>)
    ensures
        forall|i: int|
            0 <= i < rows.len() && (match #[trigger] rows[i].hash {
                Some(h) => h@ == hash,
                None => false,
            }) ==> same_hash_upto(rows, hash, rows.len() as int).contains(rows[i].id),
        forall|x: i64|
            #[trigger] same_hash_upto(rows, hash, rows.len() as int).contains(x) ==> exists|i: int|
                0 <= i < rows.len() && rows[i].id == x && (match rows[i].hash {
                    Some(h) => h@ == hash,
                    None => false,
                }),
{
    assert forall|i: int|
        0 <= i < rows.len() && (match #[trigger] rows[i].hash {
            Some(h) => h@ == hash,
            None => false,
        }) implies same_hash_upto(rows, hash, rows.len() as int).contains(rows[i].id) by {
        assert(has_hash(rows[i], hash));
        lemma_same_hash_contains(rows, hash, rows.len() as int, i);
    }
    assert forall|x: i64| #[trigger] same_hash_upto(rows, hash, rows.len() as int).contains(x) implies exists|i: int|
        0 <= i < rows.len() && rows[i].id == x && (match rows[i].hash {
            Some(h) => h@ == hash,
            None => false,
        }) by {
        lemma_same_hash_members(rows, hash, rows.len() as int, x);
        let i = choose|i: int| 0 <= i < rows.len() && has_hash(rows[i], hash) && #[trigger] rows[i].id == x;
        assert(rows[i].id == x);
    }
}

} // verus!
