//! Text in dictionary order, by code point.

use crate::text;
use vstd::prelude::*;

verus! {

broadcast use text::lemma_texts_push;

/// Does `a` come before `b`, or is it `b`?
pub open spec fn text_le(a: Seq<char>, b: Seq<char>) -> bool
    decreases a.len(),
{
    if a.len() == 0 {
        true
    } else if b.len() == 0 {
        false
    } else {
        a[0] < b[0] || (a[0] == b[0] && text_le(a.drop_first(), b.drop_first()))
    }
}

/// The order as a relation.
pub open spec fn dictionary_order() -> spec_fn(Seq<char>, Seq<char>) -> bool {
    |a: Seq<char>, b: Seq<char>| text_le(a, b)
}

/// The texts in order.
pub open spec fn sorted(list: Seq<Seq<char>>) -> Seq<Seq<char>> {
    list.sort_by(dictionary_order())
}

proof fn lemma_reflexive(a: Seq<char>)
    ensures
        text_le(a, a),
    decreases a.len(),
{
    if a.len() > 0 {
        lemma_reflexive(a.drop_first());
    }
}

proof fn lemma_antisymmetric(a: Seq<char>, b: Seq<char>)
    requires
        text_le(a, b),
        text_le(b, a),
    ensures
        a == b,
    decreases a.len(),
{
    if a.len() == 0 || b.len() == 0 {
        assert(a =~= b);
    } else {
        lemma_antisymmetric(a.drop_first(), b.drop_first());
        assert(a =~= seq![a[0]] + a.drop_first());
        assert(b =~= seq![b[0]] + b.drop_first());
    }
}

proof fn lemma_transitive(a: Seq<char>, b: Seq<char>, c: Seq<char>)
    requires
        text_le(a, b),
        text_le(b, c),
    ensures
        text_le(a, c),
    decreases a.len(),
{
    if a.len() > 0 && a[0] == b[0] && b[0] == c[0] {
        lemma_transitive(a.drop_first(), b.drop_first(), c.drop_first());
    }
}

proof fn lemma_total(a: Seq<char>, b: Seq<char>)
    ensures
        text_le(a, b) || text_le(b, a),
    decreases a.len(),
{
    if a.len() > 0 && b.len() > 0 && a[0] == b[0] {
        lemma_total(a.drop_first(), b.drop_first());
    }
}

/// Dictionary order is a total order.
pub proof fn law_dictionary_order()
    ensures
        vstd::relations::total_ordering(dictionary_order()),
{
    let le = dictionary_order();
    assert forall|a: Seq<char>| #[trigger] le(a, a) by {
        lemma_reflexive(a);
    }
    assert forall|a: Seq<char>, b: Seq<char>| #[trigger] le(a, b) && #[trigger] le(b, a) implies a
        == b by {
        lemma_antisymmetric(a, b);
    }
    assert forall|a: Seq<char>, b: Seq<char>, c: Seq<char>| #[trigger]
        le(a, b) && #[trigger] le(b, c) implies le(a, c) by {
        lemma_transitive(a, b, c);
    }
    assert forall|a: Seq<char>, b: Seq<char>| #[trigger] le(a, b) || #[trigger] le(b, a) by {
        lemma_total(a, b);
    }
}

/// Texts that agree up to `i` are ordered by what follows.
proof fn lemma_common_front(a: Seq<char>, b: Seq<char>, i: int)
    requires
        0 <= i <= a.len(),
        i <= b.len(),
        a.take(i) == b.take(i),
    ensures
        text_le(a, b) == text_le(a.skip(i), b.skip(i)),
    decreases i,
{
    if i == 0 {
        assert(a.skip(0) =~= a);
        assert(b.skip(0) =~= b);
    } else {
        assert(a[0] == a.take(i)[0] && b[0] == b.take(i)[0]);
        assert(a.drop_first().take(i - 1) =~= a.take(i).drop_first());
        assert(b.drop_first().take(i - 1) =~= b.take(i).drop_first());
        lemma_common_front(a.drop_first(), b.drop_first(), i - 1);
        assert(a.drop_first().skip(i - 1) =~= a.skip(i));
        assert(b.drop_first().skip(i - 1) =~= b.skip(i));
    }
}

/// Does `a` come before `b`, or is it `b`?
pub fn comes_first(a: &str, b: &str) -> (r: bool)
    ensures
        r == text_le(a@, b@),
{
    let x = text::to_chars(a);
    let y = text::to_chars(b);
    let mut i: usize = 0;
    while i < x.len() && i < y.len()
        invariant
            i <= x@.len(),
            i <= y@.len(),
            x@ == a@,
            y@ == b@,
            x@.take(i as int) == y@.take(i as int),
        decreases x@.len() - i,
    {
        if x[i] != y[i] {
            proof {
                lemma_common_front(x@, y@, i as int);
            }
            return x[i] < y[i];
        }
        assert(x@.take(i + 1) =~= x@.take(i as int).push(x@[i as int]));
        assert(y@.take(i + 1) =~= y@.take(i as int).push(y@[i as int]));
        i = i + 1;
    }
    proof {
        lemma_common_front(x@, y@, i as int);
    }
    i == x.len()
}

/// Insertion keeps a sorted list sorted.
proof fn lemma_insert(list: Seq<Seq<char>>, at: int, t: Seq<char>)
    requires
        vstd::relations::sorted_by(list, dictionary_order()),
        0 <= at <= list.len(),
        forall|i: int| 0 <= i < at ==> text_le(#[trigger] list[i], t),
        at < list.len() ==> text_le(t, list[at]),
    ensures
        vstd::relations::sorted_by(list.insert(at, t), dictionary_order()),
        list.insert(at, t).to_multiset() == list.push(t).to_multiset(),
{
    let le = dictionary_order();
    let longer = list.insert(at, t);
    assert forall|i: int, j: int| 0 <= i < j < longer.len() implies #[trigger] le(
        longer[i],
        longer[j],
    ) by {
        if j < at {
            assert(le(list[i], list[j]));
        } else if j == at {
            assert(text_le(list[i], t));
        } else if i == at {
            if j - 1 > at {
                assert(le(list[at], list[j - 1]));
                lemma_transitive(t, list[at], list[j - 1]);
            }
        } else if i < at {
            assert(le(list[i], list[j - 1]));
        } else {
            assert(le(list[i - 1], list[j - 1]));
        }
    }
    broadcast use vstd::seq_lib::group_to_multiset_ensures;

    assert(longer.to_multiset() =~= list.push(t).to_multiset());
}

/// The texts in order.
pub fn sort(list: &Vec<String>) -> (r: Vec<String>)
    ensures
        text::texts(r@) == sorted(text::texts(list@)),
{
    let ghost all = text::texts(list@);
    let mut out: Vec<String> = Vec::new();
    let mut k: usize = 0;
    proof {
        assert(text::texts(out@) =~= all.take(0));
    }
    while k < list.len()
        invariant
            k <= list@.len(),
            all == text::texts(list@),
            vstd::relations::sorted_by(text::texts(out@), dictionary_order()),
            text::texts(out@).to_multiset() == all.take(k as int).to_multiset(),
        decreases list@.len() - k,
    {
        let ghost before = text::texts(out@);
        let mut at: usize = 0;
        while at < out.len() && comes_first(out[at].as_str(), list[k].as_str())
            invariant
                at <= out@.len(),
                k < list@.len(),
                forall|i: int|
                    0 <= i < at ==> text_le(
                        #[trigger] text::texts(out@)[i],
                        list@[k as int]@,
                    ),
            ensures
                at <= out@.len(),
                forall|i: int|
                    0 <= i < at ==> text_le(
                        #[trigger] text::texts(out@)[i],
                        list@[k as int]@,
                    ),
                at < out@.len() ==> !text_le(out@[at as int]@, list@[k as int]@),
            decreases out@.len() - at,
        {
            at = at + 1;
        }
        proof {
            if at < out@.len() {
                lemma_total(out@[at as int]@, list@[k as int]@);
            }
            lemma_insert(before, at as int, list@[k as int]@);
        }
        out.insert(at, list[k].clone());
        proof {
            assert(text::texts(out@) =~= before.insert(at as int, list@[k as int]@));
            assert(all.take(k + 1) =~= all.take(k as int).push(list@[k as int]@));
            broadcast use vstd::seq_lib::group_to_multiset_ensures;

            assert(before.push(list@[k as int]@).to_multiset() =~= all.take(k + 1).to_multiset());
        }
        k = k + 1;
    }
    proof {
        assert(all.take(k as int) =~= all);
        law_dictionary_order();
        all.lemma_sort_by_ensures(dictionary_order());
        vstd::seq_lib::lemma_sorted_unique(text::texts(out@), sorted(all), dictionary_order());
    }
    out
}

/// The first character in which two texts differ decides which comes first, and a text
/// comes before everything that goes on from it.
pub proof fn law_first_difference_decides(
    common: Seq<char>,
    x: char,
    y: char,
    a: Seq<char>,
    b: Seq<char>,
)
    ensures
        x < y ==> text_le(common.push(x) + a, common.push(y) + b),
        x > y ==> !text_le(common.push(x) + a, common.push(y) + b),
        text_le(common, common + a),
        a.len() > 0 ==> !text_le(common + a, common),
{
    let n = common.len() as int;
    let left = common.push(x) + a;
    let right = common.push(y) + b;
    assert(left.take(n) =~= right.take(n));
    lemma_common_front(left, right, n);
    assert(left.skip(n)[0] == x && right.skip(n)[0] == y);
    let longer = common + a;
    assert(common.take(n) =~= longer.take(n));
    lemma_common_front(common, longer, n);
    lemma_common_front(longer, common, n);
    assert(common.skip(n).len() == 0);
    assert(longer.skip(n) =~= a);
}

/// Sorting keeps every text as often as it is there, and puts each behind those that come
/// before it.
pub proof fn law_sorted(list: Seq<Seq<char>>)
    ensures
        sorted(list).to_multiset() == list.to_multiset(),
        sorted(list).len() == list.len(),
        forall|i: int, j: int|
            0 <= i < j < list.len() ==> text_le(#[trigger] sorted(list)[i], #[trigger] sorted(list)[j]),
{
    law_dictionary_order();
    let le = dictionary_order();
    list.lemma_sort_by_ensures(le);
    let s = sorted(list);
    broadcast use vstd::seq_lib::group_to_multiset_ensures;

    assert(s.to_multiset().len() == list.to_multiset().len());
    assert(s.len() == list.len());
    assert forall|i: int, j: int| 0 <= i < j < list.len() implies text_le(
        #[trigger] s[i],
        #[trigger] s[j],
    ) by {
        assert(le(s[i], s[j]));
    }
}

} // verus!
