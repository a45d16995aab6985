//! Ranking of merged results: most seeders first, ties in arrival order.

use vstd::prelude::*;
use vstd::seq_lib::*;
use crate::sources::TorrentEntry;

verus! {

/// `e` placed into `s` just after the leading entries that have at least as
/// many seeders as `e`.
pub open spec fn insert_by_seeders(s: Seq<TorrentEntry>, e: TorrentEntry) -> Seq<TorrentEntry>
    decreases s.len(),
{
    if s.len() == 0 {
        seq![e]
    } else if s[0].seeders >= e.seeders {
        seq![s[0]] + insert_by_seeders(s.drop_first(), e)
    } else {
        seq![e] + s
    }
}

/// The entries of `s` in the order of a stable sort on seeders, most first:
/// each entry in turn goes after every earlier entry with at least as many
/// seeders.
pub open spec fn ranked(s: Seq<TorrentEntry>) -> Seq<TorrentEntry>
    decreases s.len(),
{
    if s.len() == 0 {
        s
    } else {
        insert_by_seeders(ranked(s.drop_last()), s.last())
    }
}

/// No entry has more seeders than one before it.
pub open spec fn most_seeded_first(s: Seq<TorrentEntry>) -> bool {
    forall|i: int, j: int| 0 <= i < j < s.len() ==> #[trigger] s[i].seeders >= #[trigger] s[j].seeders
}

/// The entries with exactly `v` seeders.
pub open spec fn with_seeders(v: u32) -> spec_fn(TorrentEntry) -> bool {
    |e: TorrentEntry| e.seeders == v
}

proof fn lemma_insert_at(s: Seq<TorrentEntry>, e: TorrentEntry, p: int)
    requires
        0 <= p <= s.len(),
        forall|j: int| 0 <= j < p ==> (#[trigger] s[j]).seeders >= e.seeders,
        p == s.len() || s[p].seeders < e.seeders,
    ensures
        insert_by_seeders(s, e) == s.insert(p, e),
    decreases p,
{
    if p == 0 {
        if s.len() == 0 {
            assert(s.insert(0, e) =~= seq![e]);
        } else {
            assert(s.insert(0, e) =~= seq![e] + s);
        }
    } else {
        let t = s.drop_first();
        assert forall|j: int| 0 <= j < p - 1 implies (#[trigger] t[j]).seeders >= e.seeders by {
            assert(t[j] == s[j + 1]);
        }
        if p < s.len() {
            assert(t[p - 1] == s[p]);
        }
        assert(s[0].seeders >= e.seeders);
        lemma_insert_at(t, e, p - 1);
        assert(seq![s[0]] + t.insert(p - 1, e) =~= s.insert(p, e));
    }
}

proof fn lemma_insert_keeps_order(s: Seq<TorrentEntry>, e: TorrentEntry, p: int)
    requires
        most_seeded_first(s),
        0 <= p <= s.len(),
        forall|j: int| 0 <= j < p ==> (#[trigger] s[j]).seeders >= e.seeders,
        p == s.len() || s[p].seeders < e.seeders,
    ensures
        most_seeded_first(s.insert(p, e)),
{
    let r = s.insert(p, e);
    assert forall|i: int, j: int| 0 <= i < j < r.len() implies #[trigger] r[i].seeders >= #[trigger] r[j].seeders by {
        if i < p && j < p {
            assert(r[i] == s[i] && r[j] == s[j]);
        } else if i < p && j == p {
            assert(r[i] == s[i]);
        } else if i < p {
            assert(r[i] == s[i] && r[j] == s[j - 1]);
        } else if i == p {
            assert(r[j] == s[j - 1]);
            assert(s[p].seeders >= s[j - 1].seeders || j - 1 == p);
        } else {
            assert(r[i] == s[i - 1] && r[j] == s[j - 1]);
        }
    }
}

/// Where `e` goes in `s`: the first entry with fewer seeders than `e`.
fn insertion_point(s: &Vec<TorrentEntry>, seeders: u32) -> (p: usize)
    ensures
        p <= s.len(),
        forall|j: int| 0 <= j < p ==> (#[trigger] s@[j]).seeders >= seeders,
        p == s.len() || s@[p as int].seeders < seeders,
{
    let mut i: usize = 0;
    while i < s.len() && s[i].seeders >= seeders
        invariant
            i <= s.len(),
            forall|j: int| 0 <= j < i ==> (#[trigger] s@[j]).seeders >= seeders,
        decreases s.len() - i,
    {
        i = i + 1;
    }
    i
}

/// Orders `entries` by seeders, most first, keeping the order of entries
/// with equal seeders (a stable sort).
pub fn rank_by_seeders(entries: Vec<TorrentEntry>) -> (r: Vec<TorrentEntry>)
    ensures
        r@ == ranked(entries@),
        most_seeded_first(r@),
{
    let ghost orig = entries@;
    let mut rest = entries;
    let mut out: Vec<TorrentEntry> = Vec::new();
    let ghost mut k: int = 0;
    assert(orig.take(0) =~= Seq::<TorrentEntry>::empty());
    while rest.len() > 0
        invariant
            0 <= k <= orig.len(),
            rest@ == orig.skip(k),
            out@ == ranked(orig.take(k)),
            most_seeded_first(out@),
        decreases rest.len(),
    {
        let ghost before = rest@;
        let e = rest.remove(0);
        let p = insertion_point(&out, e.seeders);
        proof {
            assert(e == orig[k]);
            lemma_insert_at(out@, e, p as int);
            lemma_insert_keeps_order(out@, e, p as int);
            assert(orig.take(k + 1).drop_last() =~= orig.take(k));
            assert(orig.take(k + 1).last() == orig[k]);
            assert(rest@ =~= orig.skip(k + 1));
        }
        out.insert(p, e);
        proof {
            k = k + 1;
        }
    }
    assert(orig.take(k) =~= orig);
    out
}

/// Ranking sorts: no entry of the ranked list has more seeders than one
/// before it.
pub proof fn lemma_ranked_most_seeded_first(s: Seq<TorrentEntry>)
    ensures
        most_seeded_first(ranked(s)),
    decreases s.len(),
{
    if s.len() > 0 {
        let t = ranked(s.drop_last());
        lemma_ranked_most_seeded_first(s.drop_last());
        let p = insertion_index(t, s.last());
        lemma_insertion_index(t, s.last());
        lemma_insert_at(t, s.last(), p);
        lemma_insert_keeps_order(t, s.last(), p);
    }
}

/// The position where `insert_by_seeders` puts `e`.
spec fn insertion_index(s: Seq<TorrentEntry>, e: TorrentEntry) -> int
    decreases s.len(),
{
    if s.len() == 0 || s[0].seeders < e.seeders {
        0
    } else {
        1 + insertion_index(s.drop_first(), e)
    }
}

proof fn lemma_insertion_index(s: Seq<TorrentEntry>, e: TorrentEntry)
    ensures
        0 <= insertion_index(s, e) <= s.len(),
        forall|j: int| 0 <= j < insertion_index(s, e) ==> (#[trigger] s[j]).seeders >= e.seeders,
        insertion_index(s, e) == s.len() || s[insertion_index(s, e)].seeders < e.seeders,
    decreases s.len(),
{
    if s.len() > 0 && s[0].seeders >= e.seeders {
        let t = s.drop_first();
        lemma_insertion_index(t, e);
        assert forall|j: int| 0 <= j < insertion_index(s, e) implies (#[trigger] s[j]).seeders >= e.seeders by {
            if j > 0 {
                assert(s[j] == t[j - 1]);
            }
        }
        if insertion_index(s, e) < s.len() {
            assert(s[insertion_index(s, e)] == t[insertion_index(t, e)]);
        }
    }
}

/// Ranking neither loses nor adds an entry: the ranked list is a
/// permutation of its input.
pub proof fn lemma_ranked_permutes(s: Seq<TorrentEntry>)
    ensures
        ranked(s).to_multiset() == s.to_multiset(),
    decreases s.len(),
{
    broadcast use group_to_multiset_ensures;
    if s.len() > 0 {
        let t = ranked(s.drop_last());
        lemma_ranked_permutes(s.drop_last());
        let p = insertion_index(t, s.last());
        lemma_insertion_index(t, s.last());
        lemma_insert_at(t, s.last(), p);
        assert(s.drop_last().push(s.last()) =~= s);
    }
}

proof fn lemma_filter_push(s: Seq<TorrentEntry>, e: TorrentEntry, pred: spec_fn(TorrentEntry) -> bool)
    ensures
        s.push(e).filter(pred) == (if pred(e) {
            s.filter(pred).push(e)
        } else {
            s.filter(pred)
        }),
{
    reveal(Seq::filter);
    assert(s.push(e).drop_last() =~= s);
}

proof fn lemma_filter_none(s: Seq<TorrentEntry>, pred: spec_fn(TorrentEntry) -> bool)
    requires
        forall|j: int| 0 <= j < s.len() ==> !pred(#[trigger] s[j]),
    ensures
        s.filter(pred) == Seq::<TorrentEntry>::empty(),
    decreases s.len(),
{
    reveal(Seq::filter);
    if s.len() > 0 {
        let t = s.drop_last();
        assert forall|j: int| 0 <= j < t.len() implies !pred(#[trigger] t[j]) by {
            assert(t[j] == s[j]);
        }
        lemma_filter_none(t, pred);
        assert(!pred(s[s.len() - 1]));
    } else {
        assert(s.filter(pred) =~= Seq::<TorrentEntry>::empty());
    }
}

proof fn lemma_insert_filter(t: Seq<TorrentEntry>, e: TorrentEntry, v: u32)
    requires
        most_seeded_first(t),
    ensures
        insert_by_seeders(t, e).filter(with_seeders(v)) == (if e.seeders == v {
            t.filter(with_seeders(v)).push(e)
        } else {
            t.filter(with_seeders(v))
        }),
{
    let pred = with_seeders(v);
    let p = insertion_index(t, e);
    lemma_insertion_index(t, e);
    lemma_insert_at(t, e, p);
    let head = t.take(p);
    let tail = t.skip(p);
    assert(t.insert(p, e) =~= head.push(e) + tail);
    assert(t =~= head + tail);
    Seq::filter_distributes_over_add(head.push(e), tail, pred);
    Seq::filter_distributes_over_add(head, tail, pred);
    lemma_filter_push(head, e, pred);
    if pred(e) {
        assert forall|j: int| 0 <= j < tail.len() implies !pred(#[trigger] tail[j]) by {
            assert(tail[j] == t[p + j]);
            if j > 0 {
                assert(t[p].seeders >= t[p + j].seeders);
            }
        }
        lemma_filter_none(tail, pred);
        assert(head.filter(pred) + tail.filter(pred) =~= head.filter(pred));
        assert(head.filter(pred).push(e) + tail.filter(pred) =~= head.filter(pred).push(e));
    }
}

/// Ranking is stable: the entries with any one number of seeders come out
/// in the order in which they went in.
pub proof fn lemma_ranked_stable(s: Seq<TorrentEntry>, v: u32)
    ensures
        ranked(s).filter(with_seeders(v)) == s.filter(with_seeders(v)),
    decreases s.len(),
{
    if s.len() > 0 {
        lemma_ranked_stable(s.drop_last(), v);
        lemma_ranked_most_seeded_first(s.drop_last());
        lemma_insert_filter(ranked(s.drop_last()), s.last(), v);
        lemma_filter_push(s.drop_last(), s.last(), with_seeders(v));
        assert(s.drop_last().push(s.last()) =~= s);
    }
}

} // verus!
