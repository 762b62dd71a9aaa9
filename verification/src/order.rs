//! Ordering by text, and splitting into batches.

use vstd::prelude::*;
use vstd::string::*;
use vstd::utf8::*;

verus! {

/// A byte sequence comes before another: it is a proper prefix, or is smaller
/// where they first differ.
pub open spec fn comes_before(a: Seq<u8>, b: Seq<u8>) -> bool
    decreases a.len(),
{
    if b.len() == 0 {
        false
    } else if a.len() == 0 {
        true
    } else if a[0] != b[0] {
        a[0] < b[0]
    } else {
        comes_before(a.drop_first(), b.drop_first())
    }
}

/// A text comes before another in the order of their bytes.
pub open spec fn text_before(a: Seq<char>, b: Seq<char>) -> bool {
    comes_before(encode_utf8(a), encode_utf8(b))
}

fn is_before(a: &str, b: &str) -> (yes: bool)
    ensures
        yes == text_before(a@, b@),
{
    let x = a.as_bytes();
    let y = b.as_bytes();
    let mut i: usize = 0;
    assert(x@.skip(0) =~= x@);
    assert(y@.skip(0) =~= y@);
    while i < x.len() && i < y.len()
        invariant
            i <= x@.len(),
            i <= y@.len(),
            comes_before(x@, y@) == comes_before(x@.skip(i as int), y@.skip(i as int)),
            x@ == encode_utf8(a@),
            y@ == encode_utf8(b@),
        decreases x@.len() - i,
    {
        assert(x@.skip(i as int)[0] == x@[i as int]);
        assert(y@.skip(i as int)[0] == y@[i as int]);
        if x[i] != y[i] {
            return x[i] < y[i];
        }
        assert(x@.skip(i as int).drop_first() =~= x@.skip(i + 1));
        assert(y@.skip(i as int).drop_first() =~= y@.skip(i + 1));
        i = i + 1;
    }
    i < y.len()
}

proof fn lemma_before_irreflexive(a: Seq<u8>)
    ensures
        !comes_before(a, a),
    decreases a.len(),
{
    if a.len() > 0 {
        lemma_before_irreflexive(a.drop_first());
    }
}

/// Of two different texts one comes before the other, and never both.
pub proof fn law_text_order_is_total(a: Seq<u8>, b: Seq<u8>)
    ensures
        !(comes_before(a, b) && comes_before(b, a)),
        a == b || comes_before(a, b) || comes_before(b, a),
    decreases a.len(),
{
    if a.len() > 0 && b.len() > 0 && a[0] == b[0] {
        law_text_order_is_total(a.drop_first(), b.drop_first());
        if a.drop_first() == b.drop_first() {
            assert(a =~= seq![a[0]] + a.drop_first());
            assert(b =~= seq![b[0]] + b.drop_first());
        }
    } else if a.len() == 0 && b.len() == 0 {
        assert(a =~= b);
    }
}

proof fn lemma_not_after_transitive(a: Seq<u8>, b: Seq<u8>, c: Seq<u8>)
    requires
        !comes_before(b, a),
        !comes_before(c, b),
    ensures
        !comes_before(c, a),
    decreases a.len(),
{
    if c.len() > 0 && a.len() > 0 && b.len() > 0 && a[0] == c[0] && a[0] == b[0] {
        lemma_not_after_transitive(a.drop_first(), b.drop_first(), c.drop_first());
    }
}

/// Where a text goes among the positions of sorted texts: behind those that do
/// not come after it.
pub open spec fn text_place(keys: Seq<Seq<char>>, positions: Seq<int>, key: Seq<char>) -> int
    decreases positions.len(),
{
    if positions.len() == 0 || text_before(key, keys[positions[0]]) {
        0
    } else {
        1 + text_place(keys, positions.drop_first(), key)
    }
}

/// The positions of the first texts of a list in sorted order. Equal texts keep
/// their order.
pub open spec fn sorted_positions(keys: Seq<Seq<char>>, count: nat) -> Seq<int>
    decreases count,
{
    if count == 0 {
        Seq::empty()
    } else {
        let before = sorted_positions(keys, (count - 1) as nat);
        before.insert(text_place(keys, before, keys[count - 1]), count - 1)
    }
}

/// Positions stand in the order of their texts.
pub open spec fn is_in_order(keys: Seq<Seq<char>>, positions: Seq<int>) -> bool {
    forall|i: int, j: int|
        0 <= i < j < positions.len() ==> !text_before(
            keys[#[trigger] positions[j]],
            keys[#[trigger] positions[i]],
        )
}

proof fn lemma_text_place(keys: Seq<Seq<char>>, positions: Seq<int>, key: Seq<char>)
    ensures
        0 <= text_place(keys, positions, key) <= positions.len(),
        forall|i: int|
            0 <= i < text_place(keys, positions, key) ==> !text_before(
                key,
                keys[#[trigger] positions[i]],
            ),
        text_place(keys, positions, key) < positions.len() ==> text_before(
            key,
            keys[positions[text_place(keys, positions, key)]],
        ),
    decreases positions.len(),
{
    if positions.len() > 0 && !text_before(key, keys[positions[0]]) {
        let rest = positions.drop_first();
        lemma_text_place(keys, rest, key);
        assert forall|i: int| 0 <= i < text_place(keys, positions, key) implies !text_before(
            key,
            keys[#[trigger] positions[i]],
        ) by {
            if i > 0 {
                assert(positions[i] == rest[i - 1]);
            }
        }
        if text_place(keys, positions, key) < positions.len() {
            assert(positions[text_place(keys, positions, key)] == rest[text_place(
                keys,
                rest,
                key,
            )]);
        }
    }
}

/// Sorting yields every position once, in the order of the texts.
pub proof fn law_sorting_sorts(keys: Seq<Seq<char>>, count: nat)
    requires
        count <= keys.len(),
    ensures
        is_in_order(keys, sorted_positions(keys, count)),
        sorted_positions(keys, count).len() == count,
        forall|i: int|
            0 <= i < count ==> 0 <= #[trigger] sorted_positions(keys, count)[i] < count,
        forall|p: int| 0 <= p < count ==> #[trigger] sorted_positions(keys, count).contains(p),
    decreases count,
{
    if count > 0 {
        let before = sorted_positions(keys, (count - 1) as nat);
        let key = keys[count - 1];
        let at = text_place(keys, before, key);
        let after = before.insert(at, count - 1);
        law_sorting_sorts(keys, (count - 1) as nat);
        lemma_text_place(keys, before, key);
        assert(sorted_positions(keys, count) == after);
        assert forall|i: int, j: int| 0 <= i < j < after.len() implies !text_before(
            keys[#[trigger] after[j]],
            keys[#[trigger] after[i]],
        ) by {
            if j < at {
                assert(after[i] == before[i] && after[j] == before[j]);
            } else if j == at {
                assert(after[i] == before[i]);
            } else {
                assert(after[j] == before[j - 1]);
                if i < at {
                    assert(after[i] == before[i]);
                } else if i == at {
                    let next = encode_utf8(keys[before[at]]);
                    let later = encode_utf8(keys[before[j - 1]]);
                    let own = encode_utf8(key);
                    law_text_order_is_total(own, next);
                    lemma_before_irreflexive(next);
                    assert(!comes_before(later, next)) by {
                        if j - 1 > at {
                            assert(!text_before(keys[before[j - 1]], keys[before[at]]));
                        }
                    }
                    lemma_not_after_transitive(own, next, later);
                } else {
                    assert(after[i] == before[i - 1]);
                }
            }
        }
        assert forall|i: int| 0 <= i < count implies 0 <= #[trigger] after[i] < count by {
            if i < at {
                assert(after[i] == before[i]);
            } else if i > at {
                assert(after[i] == before[i - 1]);
            }
        }
        assert forall|p: int| 0 <= p < count implies #[trigger] after.contains(p) by {
            if p == count - 1 {
                assert(after[at] == p);
            } else {
                assert(before.contains(p));
                let i = choose|i: int| 0 <= i < before.len() && before[i] == p;
                if i < at {
                    assert(after[i] == p);
                } else {
                    assert(after[i + 1] == p);
                }
            }
        }
    }
}

/// The positions of texts in sorted order. Equal texts keep their order.
pub fn sort_by_text(keys: &Vec<String>) -> (positions: Vec<usize>)
    ensures
        positions@.map_values(|p: usize| p as int) == sorted_positions(
            crate::text::views(keys@),
            keys@.len(),
        ),
        positions@.len() == keys@.len(),
        forall|i: int| 0 <= i < positions@.len() ==> #[trigger] positions@[i] < keys@.len(),
{
    let mut positions: Vec<usize> = Vec::new();
    let ghost all = crate::text::views(keys@);
    let mut i: usize = 0;
    assert(positions@.map_values(|p: usize| p as int) =~= Seq::<int>::empty());
    while i < keys.len()
        invariant
            i <= keys@.len(),
            all == crate::text::views(keys@),
            positions@.map_values(|p: usize| p as int) == sorted_positions(all, i as nat),
            positions@.len() == i,
            forall|j: int| 0 <= j < positions@.len() ==> #[trigger] positions@[j] < i,
        decreases keys@.len() - i,
    {
        let mut at: usize = 0;
        let ghost before = positions@.map_values(|p: usize| p as int);
        let ghost old_positions = positions@;
        assert(before.skip(0) =~= before);
        while at < positions.len()
            invariant_except_break
                at <= positions@.len(),
                text_place(all, before, all[i as int]) == at + text_place(
                    all,
                    before.skip(at as int),
                    all[i as int],
                ),
            invariant
                i < keys@.len(),
                all == crate::text::views(keys@),
                before == positions@.map_values(|p: usize| p as int),
                forall|j: int| 0 <= j < positions@.len() ==> #[trigger] positions@[j] < i,
            ensures
                at <= positions@.len(),
                text_place(all, before, all[i as int]) == at,
            decreases positions@.len() - at,
        {
            let other = positions[at];
            assert(before.skip(at as int)[0] == other as int);
            assert(before.skip(at as int).drop_first() =~= before.skip(at + 1));
            if is_before(keys[i].as_str(), keys[other].as_str()) {
                break ;
            }
            at = at + 1;
            if at == positions.len() {
                assert(before.skip(at as int).len() == 0);
            }
        }
        positions.insert(at, i);
        assert(positions@.map_values(|p: usize| p as int) =~= before.insert(at as int, i as int));
        assert forall|j: int| 0 <= j < positions@.len() implies #[trigger] positions@[j] < i + 1 by {
            if j < at {
                assert(positions@[j] == old_positions[j]);
            } else if j > at {
                assert(positions@[j] == old_positions[j - 1]);
            }
        }
        i = i + 1;
    }
    positions
}

/// A sequence in batches: each holds as many items as allowed, and the last one
/// what is left.
pub open spec fn in_batches<T>(items: Seq<T>, size: nat) -> Seq<Seq<T>>
    decreases items.len(),
{
    if items.len() == 0 || size == 0 {
        Seq::empty()
    } else if items.len() <= size {
        seq![items]
    } else {
        seq![items.take(size as int)] + in_batches(items.skip(size as int), size)
    }
}

/// The items of all batches, in order.
pub open spec fn all_items<T>(batches: Seq<Seq<T>>) -> Seq<T>
    decreases batches.len(),
{
    if batches.len() == 0 {
        Seq::empty()
    } else {
        batches[0] + all_items(batches.drop_first())
    }
}

/// Batches hold every item, in order, and none is empty or larger than allowed.
pub proof fn law_batches_hold_everything<T>(items: Seq<T>, size: nat)
    requires
        size > 0,
    ensures
        all_items(in_batches(items, size)) == items,
        forall|i: int|
            0 <= i < in_batches(items, size).len() ==> 0 < (#[trigger] in_batches(
                items,
                size,
            )[i]).len() <= size,
    decreases items.len(),
{
    let batches = in_batches(items, size);
    if items.len() == 0 {
        assert(all_items(batches) =~= items);
    } else if items.len() <= size {
        assert(batches.drop_first() =~= Seq::empty());
        assert(all_items(batches.drop_first()) =~= Seq::empty());
        assert(all_items(batches) =~= items);
    } else {
        let rest = in_batches(items.skip(size as int), size);
        law_batches_hold_everything(items.skip(size as int), size);
        assert(batches.drop_first() =~= rest);
        assert(all_items(batches) =~= items);
        assert forall|i: int| 0 <= i < batches.len() implies 0 < (#[trigger] batches[i]).len()
            <= size by {
            if i > 0 {
                assert(batches[i] == rest[i - 1]);
            }
        }
    }
}

} // verus!
