//! Ordering entries: by score, then by how recently they were used, then by position.

use crate::time;
use crate::time::Timestamp;
use vstd::prelude::*;

verus! {

/// What an entry is ordered by.
#[derive(Clone, Copy, Debug)]
pub struct Rank {
    pub score: u32,
    pub last_used: Option<Timestamp>,
}

/// The mathematical form of a [`Rank`].
pub struct RankView {
    pub score: int,
    pub last_used: Option<(int, int)>,
}

/// The seconds and nanoseconds of an optional timestamp.
pub open spec fn opt_instant(t: Option<Timestamp>) -> Option<(int, int)> {
    match t {
        Some(t) => Some(t@),
        None => None,
    }
}

impl View for Rank {
    type V = RankView;

    open spec fn view(&self) -> RankView {
        RankView { score: self.score as int, last_used: opt_instant(self.last_used) }
    }
}

/// Was the entry last used at `a` used more recently than the one last used at `b`? One
/// that was never used comes after every one that was.
pub open spec fn more_recent(a: Option<(int, int)>, b: Option<(int, int)>) -> bool {
    match (a, b) {
        (Some(x), Some(y)) => time::later(x, y),
        (Some(_), None) => true,
        _ => false,
    }
}

/// Does `a` come before `b` whatever their positions are?
pub open spec fn outranks(a: RankView, b: RankView) -> bool {
    a.score > b.score || (a.score == b.score && more_recent(a.last_used, b.last_used))
}

/// Does entry `i` come before entry `j`? Entries of equal rank keep their order.
pub open spec fn precedes(ranks: Seq<Option<RankView>>, i: int, j: int) -> bool {
    let a = ranks[i]->0;
    let b = ranks[j]->0;
    outranks(a, b) || (!outranks(b, a) && i < j)
}

/// `p` lists the positions of all the entries that have a rank, each before those that it
/// precedes.
pub open spec fn is_ranking(ranks: Seq<Option<RankView>>, p: Seq<int>) -> bool {
    &&& forall|i: int|
        0 <= i < p.len() ==> 0 <= #[trigger] p[i] < ranks.len() && ranks[p[i]] is Some
    &&& forall|k: int| 0 <= k < ranks.len() && ranks[k] is Some ==> #[trigger] p.contains(k)
    &&& forall|i: int, j: int|
        0 <= i < j < p.len() ==> precedes(ranks, #[trigger] p[i], #[trigger] p[j])
}

/// The positions of the entries that have a rank, in order.
pub open spec fn ranking(ranks: Seq<Option<RankView>>) -> Seq<int> {
    choose|p: Seq<int>| is_ranking(ranks, p)
}

proof fn lemma_same_order(ranks: Seq<Option<RankView>>, p: Seq<int>, q: Seq<int>)
    requires
        forall|i: int, j: int|
            0 <= i < j < p.len() ==> precedes(ranks, #[trigger] p[i], #[trigger] p[j]),
        forall|i: int, j: int|
            0 <= i < j < q.len() ==> precedes(ranks, #[trigger] q[i], #[trigger] q[j]),
        forall|k: int| p.contains(k) <==> q.contains(k),
    ensures
        p == q,
    decreases p.len(),
{
    if p.len() == 0 {
        if q.len() > 0 {
            assert(q.contains(q[0]));
            assert(p.contains(q[0]));
        }
        assert(p =~= q);
    } else {
        assert(p.contains(p[0]));
        assert(q.contains(p[0]));
        let j = choose|j: int| 0 <= j < q.len() && q[j] == p[0];
        assert(q.contains(q[0]));
        assert(p.contains(q[0]));
        let i = choose|i: int| 0 <= i < p.len() && p[i] == q[0];
        if j > 0 {
            assert(precedes(ranks, q[0], q[j]));
            if i > 0 {
                assert(precedes(ranks, p[0], p[i]));
            }
            assert(false);
        }
        let p1 = p.drop_first();
        let q1 = q.drop_first();
        assert forall|k: int| p1.contains(k) <==> q1.contains(k) by {
            if p1.contains(k) {
                let a = choose|a: int| 0 <= a < p1.len() && p1[a] == k;
                assert(p[a + 1] == k);
                assert(precedes(ranks, p[0], p[a + 1]));
                assert(p.contains(k));
                let b = choose|b: int| 0 <= b < q.len() && q[b] == k;
                assert(b > 0);
                assert(q1[b - 1] == k);
            }
            if q1.contains(k) {
                let a = choose|a: int| 0 <= a < q1.len() && q1[a] == k;
                assert(q[a + 1] == k);
                assert(precedes(ranks, q[0], q[a + 1]));
                assert(q.contains(k));
                let b = choose|b: int| 0 <= b < p.len() && p[b] == k;
                assert(b > 0);
                assert(p1[b - 1] == k);
            }
        }
        assert forall|a: int, b: int| 0 <= a < b < p1.len() implies precedes(
            ranks,
            #[trigger] p1[a],
            #[trigger] p1[b],
        ) by {
            assert(precedes(ranks, p[a + 1], p[b + 1]));
        }
        assert forall|a: int, b: int| 0 <= a < b < q1.len() implies precedes(
            ranks,
            #[trigger] q1[a],
            #[trigger] q1[b],
        ) by {
            assert(precedes(ranks, q[a + 1], q[b + 1]));
        }
        lemma_same_order(ranks, p1, q1);
        assert(p =~= seq![p[0]] + p1);
        assert(q =~= seq![q[0]] + q1);
    }
}

/// There is one ranking at most.
pub proof fn law_ranking_unique(ranks: Seq<Option<RankView>>, p: Seq<int>, q: Seq<int>)
    requires
        is_ranking(ranks, p),
        is_ranking(ranks, q),
    ensures
        p == q,
{
    assert forall|k: int| p.contains(k) <==> q.contains(k) by {
        if p.contains(k) {
            let i = choose|i: int| 0 <= i < p.len() && p[i] == k;
            assert(ranks[p[i]] is Some);
            assert(q.contains(k));
        }
        if q.contains(k) {
            let i = choose|i: int| 0 <= i < q.len() && q[i] == k;
            assert(ranks[q[i]] is Some);
            assert(p.contains(k));
        }
    }
    lemma_same_order(ranks, p, q);
}

/// Where an entry behind all others goes: in front of the first that it outranks.
spec fn is_slot(ranks: Seq<Option<RankView>>, p: Seq<int>, r: RankView, slot: int) -> bool {
    &&& 0 <= slot <= p.len()
    &&& forall|i: int| 0 <= i < slot ==> !outranks(r, ranks[#[trigger] p[i]]->0)
    &&& slot < p.len() ==> outranks(r, ranks[p[slot]]->0)
}

proof fn lemma_insert(ranks: Seq<Option<RankView>>, p: Seq<int>, r: RankView, slot: int)
    requires
        is_ranking(ranks, p),
        is_slot(ranks, p, r, slot),
    ensures
        is_ranking(ranks.push(Some(r)), p.insert(slot, ranks.len() as int)),
{
    let n = ranks.len() as int;
    let more = ranks.push(Some(r));
    let q = p.insert(slot, n);
    assert forall|i: int| 0 <= i < q.len() implies 0 <= #[trigger] q[i] < more.len() && more[q[i]] is Some by {
        if i < slot {
            assert(q[i] == p[i]);
        } else if i > slot {
            assert(q[i] == p[i - 1]);
        }
    }
    assert forall|k: int| 0 <= k < more.len() && more[k] is Some implies #[trigger] q.contains(
        k,
    ) by {
        if k == n {
            assert(q[slot] == n);
        } else {
            assert(ranks[k] is Some);
            assert(p.contains(k));
            let i = choose|i: int| 0 <= i < p.len() && p[i] == k;
            if i < slot {
                assert(q[i] == k);
            } else {
                assert(q[i + 1] == k);
            }
        }
    }
    assert forall|i: int, j: int| 0 <= i < j < q.len() implies precedes(
        more,
        #[trigger] q[i],
        #[trigger] q[j],
    ) by {
        if j < slot {
            assert(precedes(ranks, p[i], p[j]));
        } else if j == slot {
            assert(q[i] == p[i]);
            assert(!outranks(r, ranks[p[i]]->0));
        } else if i < slot {
            assert(precedes(ranks, p[i], p[j - 1]));
        } else if i == slot {
            assert(q[j] == p[j - 1]);
            if j - 1 > slot {
                assert(precedes(ranks, p[slot], p[j - 1]));
            }
            assert(outranks(r, ranks[p[slot]]->0));
        } else {
            assert(precedes(ranks, p[i - 1], p[j - 1]));
        }
    }
}

proof fn lemma_skip(ranks: Seq<Option<RankView>>, p: Seq<int>)
    requires
        is_ranking(ranks, p),
    ensures
        is_ranking(ranks.push(None), p),
{
    let more = ranks.push(None);
    assert forall|i: int| 0 <= i < p.len() implies 0 <= #[trigger] p[i] < more.len() && more[p[i]] is Some by {
        assert(ranks[p[i]] is Some);
    }
    assert forall|k: int| 0 <= k < more.len() && more[k] is Some implies #[trigger] p.contains(
        k,
    ) by {
        assert(ranks[k] is Some);
    }
    assert forall|i: int, j: int| 0 <= i < j < p.len() implies precedes(
        more,
        #[trigger] p[i],
        #[trigger] p[j],
    ) by {
        assert(precedes(ranks, p[i], p[j]));
    }
}

proof fn lemma_slot_exists(ranks: Seq<Option<RankView>>, p: Seq<int>, r: RankView, upto: int) -> (slot: int)
    requires
        0 <= upto <= p.len(),
        forall|i: int| 0 <= i < upto ==> !outranks(r, ranks[#[trigger] p[i]]->0),
    ensures
        is_slot(ranks, p, r, slot),
    decreases p.len() - upto,
{
    if upto < p.len() && !outranks(r, ranks[p[upto]]->0) {
        lemma_slot_exists(ranks, p, r, upto + 1)
    } else {
        upto
    }
}

/// There is a ranking, whatever the ranks are.
pub proof fn law_ranking_exists(ranks: Seq<Option<RankView>>)
    ensures
        is_ranking(ranks, ranking(ranks)),
    decreases ranks.len(),
{
    if ranks.len() == 0 {
        let p = Seq::<int>::empty();
        assert(is_ranking(ranks, p));
    } else {
        let fewer = ranks.drop_last();
        law_ranking_exists(fewer);
        let p = ranking(fewer);
        match ranks.last() {
            Some(r) => {
                let slot = lemma_slot_exists(fewer, p, r, 0);
                lemma_insert(fewer, p, r, slot);
                assert(fewer.push(Some(r)) =~= ranks);
                assert(is_ranking(ranks, p.insert(slot, fewer.len() as int)));
            },
            None => {
                lemma_skip(fewer, p);
                assert(fewer.push(None) =~= ranks);
                assert(is_ranking(ranks, p));
            },
        }
    }
}

/// The ranks of a list, in mathematical form.
pub open spec fn rank_views(v: Seq<Option<Rank>>) -> Seq<Option<RankView>> {
    Seq::new(
        v.len(),
        |i: int|
            match v[i] {
                Some(r) => Some(r@),
                None => None,
            },
    )
}

pub broadcast proof fn lemma_rank_views_push(v: Seq<Option<Rank>>, r: Option<Rank>)
    ensures
        #[trigger] rank_views(v.push(r)) == rank_views(v).push(
            match r {
                Some(r) => Some(r@),
                None => None,
            },
        ),
{
    assert(rank_views(v.push(r)) =~= rank_views(v).push(
        match r {
            Some(r) => Some(r@),
            None => None,
        },
    ));
}

/// A list of positions as integers.
pub open spec fn positions(v: Seq<usize>) -> Seq<int> {
    Seq::new(v.len(), |i: int| v[i] as int)
}

fn is_later(a: &Timestamp, b: &Timestamp) -> (r: bool)
    ensures
        r == time::later(a@, b@),
{
    a.secs() > b.secs() || (a.secs() == b.secs() && a.nanos() > b.nanos())
}

fn does_outrank(a: &Rank, b: &Rank) -> (r: bool)
    ensures
        r == outranks(a@, b@),
{
    if a.score != b.score {
        return a.score > b.score;
    }
    match (&a.last_used, &b.last_used) {
        (Some(x), Some(y)) => is_later(x, y),
        (Some(_), None) => true,
        _ => false,
    }
}

/// The positions of the entries that have a rank, in order.
pub fn rank_entries(ranks: &Vec<Option<Rank>>) -> (r: Vec<usize>)
    ensures
        positions(r@) == ranking(rank_views(ranks@)),
        forall|i: int| 0 <= i < r@.len() ==> #[trigger] r@[i] < ranks@.len(),
{
    let mut out: Vec<usize> = Vec::new();
    let ghost all = rank_views(ranks@);
    let mut k: usize = 0;
    while k < ranks.len()
        invariant
            k <= ranks@.len(),
            all == rank_views(ranks@),
            is_ranking(all.take(k as int), positions(out@)),
        decreases ranks@.len() - k,
    {
        let ghost before = all.take(k as int);
        let ghost p = positions(out@);
        proof {
            assert(all.take(k + 1) =~= before.push(all[k as int]));
        }
        match &ranks[k] {
            Some(rank) => {
                let mut slot: usize = 0;
                let mut found: bool = false;
                while slot < out.len() && !found
                    invariant
                        slot <= out@.len(),
                        k < ranks@.len(),
                        all == rank_views(ranks@),
                        before == all.take(k as int),
                        p == positions(out@),
                        is_ranking(before, p),
                        forall|i: int| 0 <= i < slot ==> !outranks(rank@, before[#[trigger] p[i]]->0),
                        found ==> slot < out@.len() && outranks(rank@, before[p[slot as int]]->0),
                    decreases out@.len() - slot + (if found { 0int } else { 1int }),
                {
                    assert(0 <= p[slot as int] < before.len() && before[p[slot as int]] is Some);
                    let other: usize = out[slot];
                    match &ranks[other] {
                        Some(o) => {
                            assert(before[p[slot as int]]->0 == o@);
                            if does_outrank(rank, o) {
                                found = true;
                            } else {
                                slot = slot + 1;
                            }
                        },
                        None => {
                            assert(false);
                            slot = slot + 1;
                        },
                    }
                }
                proof {
                    lemma_insert(before, p, rank@, slot as int);
                    assert(positions(out@.insert(slot as int, k)) =~= p.insert(
                        slot as int,
                        k as int,
                    ));
                }
                out.insert(slot, k);
            },
            None => {
                proof {
                    lemma_skip(before, p);
                }
            },
        }
        k = k + 1;
    }
    proof {
        assert(all.take(k as int) =~= all);
        law_ranking_exists(all);
        law_ranking_unique(all, positions(out@), ranking(all));
        assert forall|i: int| 0 <= i < out@.len() implies #[trigger] out@[i] < ranks@.len() by {
            assert(positions(out@)[i] == out@[i]);
        }
    }
    out
}

// ---------------------------------------------------------------- laws

/// Something that was used is more recent than what never was, of two that were used the
/// later is, and nothing is more recent than itself.
pub proof fn law_more_recent(a: (int, int), b: (int, int))
    ensures
        more_recent(Some(a), None),
        !more_recent(None, Some(a)),
        !more_recent(None, None),
        more_recent(Some(a), Some(b)) <==> a.0 > b.0 || (a.0 == b.0 && a.1 > b.1),
{
}

} // verus!
