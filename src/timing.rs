//! Positions of items on a track: each item starts where the previous one ends.
use vstd::prelude::*;

use crate::model::Item;
use crate::time::pos;

verus! {

/// The sum of the clamped durations of a sequence of items.
pub open spec fn sum_durs(s: Seq<Item>) -> int
    decreases s.len(),
{
    if s.len() == 0 {
        0
    } else {
        sum_durs(s.drop_last()) + pos(s.last().dur())
    }
}

/// Where item `i` starts: the clamped durations of the items before it.
pub open spec fn start_of(s: Seq<Item>, i: int) -> int {
    sum_durs(s.take(i))
}

/// Item `i` holds time `t` (closed on the left, open on the right).
pub open spec fn holds_time(s: Seq<Item>, i: int, t: int) -> bool {
    0 <= i < s.len() && start_of(s, i) <= t < start_of(s, i) + pos(s[i].dur())
}

/// The items' total length fits in a time value.
pub open spec fn fits(s: Seq<Item>) -> bool {
    sum_durs(s) <= i64::MAX
}

/// Every clip can have its media offset advanced by its whole length.
pub open spec fn offsets_fit(s: Seq<Item>) -> bool {
    forall|i: int|
        0 <= i < s.len() && !(#[trigger] s[i]).is_gap() ==> s[i].start() + pos(s[i].dur())
            <= i64::MAX
}

pub proof fn lemma_sum_nonneg(s: Seq<Item>)
    ensures
        sum_durs(s) >= 0,
    decreases s.len(),
{
    if s.len() > 0 {
        lemma_sum_nonneg(s.drop_last());
    }
}

/// The sum over a concatenation is the sum of the sums.
pub proof fn lemma_sum_concat(a: Seq<Item>, b: Seq<Item>)
    ensures
        sum_durs(a + b) == sum_durs(a) + sum_durs(b),
    decreases b.len(),
{
    if b.len() == 0 {
        assert(a + b =~= a);
    } else {
        lemma_sum_concat(a, b.drop_last());
        assert((a + b).drop_last() =~= a + b.drop_last());
    }
}

/// Extending a prefix by one item adds that item's clamped duration.
pub proof fn lemma_sum_take_next(s: Seq<Item>, i: int)
    requires
        0 <= i < s.len(),
    ensures
        sum_durs(s.take(i + 1)) == sum_durs(s.take(i)) + pos(s[i].dur()),
{
    assert(s.take(i + 1).drop_last() =~= s.take(i));
}

/// Prefix sums grow with the prefix and stay below the whole sum.
pub proof fn lemma_sum_take_mono(s: Seq<Item>, i: int, j: int)
    requires
        0 <= i <= j <= s.len(),
    ensures
        sum_durs(s.take(i)) <= sum_durs(s.take(j)) <= sum_durs(s),
{
    lemma_sum_concat(s.take(i), s.subrange(i, j));
    assert(s.take(i) + s.subrange(i, j) =~= s.take(j));
    lemma_sum_nonneg(s.subrange(i, j));
    lemma_sum_concat(s.take(j), s.skip(j));
    assert(s.take(j) + s.skip(j) =~= s);
    lemma_sum_nonneg(s.skip(j));
}

/// A single item's clamped duration is at most the sum.
pub proof fn lemma_item_le_sum(s: Seq<Item>, i: int)
    requires
        0 <= i < s.len(),
    ensures
        start_of(s, i) + pos(s[i].dur()) <= sum_durs(s),
{
    lemma_sum_take_next(s, i);
    lemma_sum_take_mono(s, i + 1, s.len() as int);
}

/// The sum of the whole sequence is the start of one past its end.
pub proof fn lemma_take_all(s: Seq<Item>)
    ensures
        start_of(s, s.len() as int) == sum_durs(s),
{
    assert(s.take(s.len() as int) =~= s);
}

/// At most one item holds a given time.
pub proof fn lemma_holds_unique(s: Seq<Item>, i: int, j: int, t: int)
    requires
        holds_time(s, i, t),
        holds_time(s, j, t),
    ensures
        i == j,
{
    if i < j {
        lemma_sum_take_next(s, i);
        lemma_sum_take_mono(s, i + 1, j);
    } else if j < i {
        lemma_sum_take_next(s, j);
        lemma_sum_take_mono(s, j + 1, i);
    }
}

} // verus!
