//! The order of texts by their characters, and the stable sorting of keys.

use crate::text::chars_of;
use vstd::prelude::*;

verus! {

/// Whether the text `a` comes before the text `b`: at the first place where
/// they differ `a` has the lower character, or `a` ends there and `b` goes on.
pub open spec fn text_before(a: Seq<char>, b: Seq<char>) -> bool
    decreases a.len(),
{
    if b.len() == 0 {
        false
    } else if a.len() == 0 {
        true
    } else if a[0] != b[0] {
        a[0] < b[0]
    } else {
        text_before(a.skip(1), b.skip(1))
    }
}

/// Whether the text `a` comes before the text `b`.
pub fn comes_before(a: &str, b: &str) -> (before: bool)
    ensures
        before == text_before(a@, b@),
{
    let x = chars_of(a);
    let y = chars_of(b);
    let mut i: usize = 0;
    assert(x@.skip(0) == x@);
    assert(y@.skip(0) == y@);
    while i < x.len() && i < y.len() && x[i] == y[i]
        invariant
            i <= x.len(),
            i <= y.len(),
            text_before(x@, y@) == text_before(x@.skip(i as int), y@.skip(i as int)),
        decreases x.len() - i,
    {
        assert(x@.skip(i as int).skip(1) == x@.skip(i + 1));
        assert(y@.skip(i as int).skip(1) == y@.skip(i + 1));
        i += 1;
    }
    if i >= y.len() {
        false
    } else if i >= x.len() {
        true
    } else {
        x[i] < y[i]
    }
}

/// The positions `order`, which are sorted by their keys, with the position
/// `index` put in behind all those whose key does not come after its own.
pub open spec fn inserted(order: Seq<int>, keys: Seq<Seq<char>>, index: int) -> Seq<int>
    decreases order.len(),
{
    if order.len() == 0 {
        seq![index]
    } else if text_before(keys[index], keys[order.last()]) {
        inserted(order.drop_last(), keys, index).push(order.last())
    } else {
        order.push(index)
    }
}

/// The first `n` positions of `keys` in the order of their keys; positions
/// with the same key stay in the order of the positions.
pub open spec fn sorted_order(keys: Seq<Seq<char>>, n: nat) -> Seq<int>
    decreases n,
{
    if n == 0 {
        Seq::empty()
    } else {
        inserted(sorted_order(keys, (n - 1) as nat), keys, n - 1)
    }
}

/// Whether `order` goes up by key, and by position where the keys are the
/// same.
pub open spec fn is_sorted(order: Seq<int>, keys: Seq<Seq<char>>) -> bool {
    forall|i: int, j: int|
        0 <= i < j < order.len() ==> !text_before(
            keys[#[trigger] order[j]],
            keys[#[trigger] order[i]],
        ) && (keys[order[i]] == keys[order[j]] ==> order[i] < order[j])
}

/// The positions as plain numbers.
pub open spec fn positions(order: Seq<usize>) -> Seq<int> {
    Seq::new(order.len(), |i: int| order[i] as int)
}

fn insert_position(order: &mut Vec<usize>, keys: &Vec<String>, index: usize)
    requires
        index < keys.len(),
        forall|i: int| 0 <= i < old(order)@.len() ==> (#[trigger] old(order)@[i]) < keys.len(),
    ensures
        positions(final(order)@) == inserted(
            positions(old(order)@),
            keys.deep_view(),
            index as int,
        ),
        forall|i: int| 0 <= i < final(order)@.len() ==> (#[trigger] final(order)@[i]) < keys.len(),
        final(order)@.len() == old(order)@.len() + 1,
    decreases old(order)@.len(),
{
    let n = order.len();
    if n == 0 {
        order.push(index);
        assert(positions(order@) == seq![index as int]);
    } else {
        let last = order[n - 1];
        let ghost before = positions(order@);
        assert(before.last() == last);
        if comes_before(keys[index].as_str(), keys[last].as_str()) {
            order.pop();
            assert(positions(order@) == before.drop_last());
            insert_position(order, keys, index);
            let ghost front = positions(order@);
            order.push(last);
            assert(positions(order@) == front.push(last as int));
        } else {
            order.push(index);
            assert(positions(order@) == before.push(index as int));
        }
    }
}

/// The positions of `keys` in the order of their keys; positions with the
/// same key stay in the order of the positions.
pub fn sort_positions(keys: &Vec<String>) -> (order: Vec<usize>)
    ensures
        positions(order@) == sorted_order(keys.deep_view(), keys.len() as nat),
        order@.len() == keys.len(),
        forall|i: int| 0 <= i < order@.len() ==> (#[trigger] order@[i]) < keys.len(),
{
    let mut order: Vec<usize> = Vec::new();
    let mut i: usize = 0;
    assert(positions(order@) == Seq::<int>::empty());
    while i < keys.len()
        invariant
            i <= keys.len(),
            order@.len() == i,
            positions(order@) == sorted_order(keys.deep_view(), i as nat),
            forall|k: int| 0 <= k < order@.len() ==> (#[trigger] order@[k]) < keys.len(),
        decreases keys.len() - i,
    {
        insert_position(&mut order, keys, i);
        i += 1;
    }
    order
}

/// No text comes before itself, and of two texts at most one comes before
/// the other.
pub proof fn lemma_before_asymmetric(a: Seq<char>, b: Seq<char>)
    ensures
        !text_before(a, a),
        text_before(a, b) ==> !text_before(b, a),
    decreases a.len(),
{
    if a.len() > 0 {
        lemma_before_asymmetric(a.skip(1), a.skip(1));
        if b.len() > 0 && a[0] == b[0] {
            lemma_before_asymmetric(a.skip(1), b.skip(1));
        }
    }
}

/// What comes before a text comes before every text that does not come
/// before that one.
pub proof fn lemma_before_transitive(a: Seq<char>, b: Seq<char>, c: Seq<char>)
    requires
        text_before(a, b),
        !text_before(c, b),
    ensures
        text_before(a, c),
    decreases a.len(),
{
    if a.len() > 0 && b.len() > 0 && c.len() > 0 && a[0] == b[0] && b[0] == c[0] {
        lemma_before_transitive(a.skip(1), b.skip(1), c.skip(1));
    }
}

/// Of two different texts one comes before the other.
pub proof fn lemma_before_total(a: Seq<char>, b: Seq<char>)
    requires
        !text_before(a, b),
        !text_before(b, a),
    ensures
        a == b,
    decreases a.len(),
{
    if a.len() > 0 && b.len() > 0 {
        lemma_before_total(a.skip(1), b.skip(1));
        assert(a == seq![a[0]] + a.skip(1));
        assert(b == seq![b[0]] + b.skip(1));
    } else {
        assert(a.len() == 0 && b.len() == 0);
        assert(a == b);
    }
}

/// Putting a position in adds it and keeps all others.
pub proof fn lemma_inserted_holds(order: Seq<int>, keys: Seq<Seq<char>>, index: int)
    ensures
        inserted(order, keys, index).len() == order.len() + 1,
        forall|e: int| #[trigger]
            inserted(order, keys, index).contains(e) <==> (order.contains(e) || e == index),
    decreases order.len(),
{
    let after = inserted(order, keys, index);
    if order.len() == 0 {
        assert(after[0] == index);
        assert forall|e: int| #[trigger] after.contains(e) <==> (order.contains(e) || e == index) by {
            if e == index {
                assert(after[0] == e);
            }
        }
    } else if text_before(keys[index], keys[order.last()]) {
        let front = inserted(order.drop_last(), keys, index);
        lemma_inserted_holds(order.drop_last(), keys, index);
        assert forall|e: int| #[trigger] after.contains(e) <==> (order.contains(e) || e == index) by {
            if after.contains(e) {
                let i = choose|i: int| 0 <= i < after.len() && after[i] == e;
                if i < front.len() {
                    assert(front[i] == e);
                    assert(front.contains(e));
                    if order.drop_last().contains(e) {
                        let j = choose|j: int|
                            0 <= j < order.drop_last().len() && order.drop_last()[j] == e;
                        assert(order[j] == e);
                    }
                } else {
                    assert(order[order.len() - 1] == e);
                }
            }
            if order.contains(e) {
                let j = choose|j: int| 0 <= j < order.len() && order[j] == e;
                if j < order.len() - 1 {
                    assert(order.drop_last()[j] == e);
                    assert(order.drop_last().contains(e));
                    assert(front.contains(e));
                    let i = choose|i: int| 0 <= i < front.len() && front[i] == e;
                    assert(after[i] == e);
                } else {
                    assert(after[after.len() - 1] == e);
                }
            }
            if e == index {
                assert(front.contains(e));
                let i = choose|i: int| 0 <= i < front.len() && front[i] == e;
                assert(after[i] == e);
            }
        }
    } else {
        assert forall|e: int| #[trigger] after.contains(e) <==> (order.contains(e) || e == index) by {
            if after.contains(e) {
                let i = choose|i: int| 0 <= i < after.len() && after[i] == e;
                if i < order.len() {
                    assert(order[i] == e);
                }
            }
            if order.contains(e) {
                let j = choose|j: int| 0 <= j < order.len() && order[j] == e;
                assert(after[j] == e);
            }
            if e == index {
                assert(after[after.len() - 1] == e);
            }
        }
    }
}

/// Putting a later position into sorted positions leaves them sorted.
pub proof fn lemma_inserted_sorted(order: Seq<int>, keys: Seq<Seq<char>>, index: int)
    requires
        is_sorted(order, keys),
        forall|i: int| 0 <= i < order.len() ==> 0 <= #[trigger] order[i] < index,
    ensures
        is_sorted(inserted(order, keys, index), keys),
    decreases order.len(),
{
    let after = inserted(order, keys, index);
    if order.len() == 0 {
    } else if text_before(keys[index], keys[order.last()]) {
        let last = order.last();
        let front = inserted(order.drop_last(), keys, index);
        assert(is_sorted(order.drop_last(), keys)) by {
            assert forall|i: int, j: int| 0 <= i < j < order.drop_last().len() implies !text_before(
                keys[#[trigger] order.drop_last()[j]],
                keys[#[trigger] order.drop_last()[i]],
            ) && (keys[order.drop_last()[i]] == keys[order.drop_last()[j]] ==> order.drop_last()[i]
                < order.drop_last()[j]) by {
                assert(order.drop_last()[i] == order[i]);
                assert(order.drop_last()[j] == order[j]);
            }
        }
        assert forall|i: int| 0 <= i < order.drop_last().len() implies 0 <= #[trigger] order.drop_last()[i]
            < index by {
            assert(order.drop_last()[i] == order[i]);
        }
        lemma_inserted_sorted(order.drop_last(), keys, index);
        lemma_inserted_holds(order.drop_last(), keys, index);
        assert forall|i: int, j: int| 0 <= i < j < after.len() implies !text_before(
            keys[#[trigger] after[j]],
            keys[#[trigger] after[i]],
        ) && (keys[after[i]] == keys[after[j]] ==> after[i] < after[j]) by {
            if j < front.len() {
                assert(after[i] == front[i]);
                assert(after[j] == front[j]);
            } else {
                assert(after[j] == last);
                assert(after[i] == front[i]);
                assert(front.contains(front[i]));
                let e = front[i];
                if e == index {
                    lemma_before_asymmetric(keys[index], keys[last]);
                } else {
                    assert(order.drop_last().contains(e));
                    let k = choose|k: int|
                        0 <= k < order.drop_last().len() && order.drop_last()[k] == e;
                    assert(order[k] == e);
                    assert(order[order.len() - 1] == last);
                }
            }
        }
    } else {
        let last = order.last();
        assert forall|i: int, j: int| 0 <= i < j < after.len() implies !text_before(
            keys[#[trigger] after[j]],
            keys[#[trigger] after[i]],
        ) && (keys[after[i]] == keys[after[j]] ==> after[i] < after[j]) by {
            if j < order.len() {
                assert(after[i] == order[i]);
                assert(after[j] == order[j]);
            } else {
                assert(after[j] == index);
                assert(after[i] == order[i]);
                let e = order[i];
                if text_before(keys[index], keys[e]) {
                    if i < order.len() - 1 {
                        assert(order[order.len() - 1] == last);
                        assert(!text_before(keys[last], keys[e]));
                        lemma_before_transitive(keys[index], keys[e], keys[last]);
                    }
                }
            }
        }
    }
}

/// The sorted positions are all the positions, each once, and they go up by
/// key, and by position where keys are the same.
pub proof fn lemma_sorted_order(keys: Seq<Seq<char>>, n: nat)
    ensures
        sorted_order(keys, n).len() == n,
        forall|e: int| #[trigger] sorted_order(keys, n).contains(e) <==> 0 <= e < n,
        is_sorted(sorted_order(keys, n), keys),
    decreases n,
{
    if n > 0 {
        let before = sorted_order(keys, (n - 1) as nat);
        lemma_sorted_order(keys, (n - 1) as nat);
        lemma_inserted_holds(before, keys, n - 1);
        assert forall|i: int| 0 <= i < before.len() implies 0 <= #[trigger] before[i] < n - 1 by {
            assert(before.contains(before[i]));
        }
        lemma_inserted_sorted(before, keys, n - 1);
    }
}

} // verus!
