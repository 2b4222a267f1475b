//! The per-track normalizer: clamp negative durations, drop empty items,
//! merge adjacent gaps.
use vstd::prelude::*;

use crate::model::Item;
use crate::timing::{fits, lemma_sum_nonneg, sum_durs};
use crate::track::{Stack, Timeline, Track};

verus! {

/// An item whose negative duration is replaced by zero.
pub open spec fn clamp_item(it: Item) -> Item {
    if it.dur() < 0 { it.with_dur(0) } else { it }
}

/// Every item clamped.
pub open spec fn clamp_all(s: Seq<Item>) -> Seq<Item> {
    s.map_values(|it: Item| clamp_item(it))
}

/// The items of positive duration, in order.
pub open spec fn positive_only(s: Seq<Item>) -> Seq<Item>
    decreases s.len(),
{
    if s.len() == 0 {
        s
    } else if s.last().dur() > 0 {
        positive_only(s.drop_last()).push(s.last())
    } else {
        positive_only(s.drop_last())
    }
}

/// Left to right, a gap that follows a gap is folded into it.
pub open spec fn merge_gaps(s: Seq<Item>) -> Seq<Item>
    decreases s.len(),
{
    if s.len() == 0 {
        s
    } else {
        let m = merge_gaps(s.drop_last());
        let x = s.last();
        if m.len() > 0 && m.last().is_gap() && x.is_gap() {
            m.update(m.len() - 1, m.last().with_dur((m.last().dur() + x.dur()) as i64))
        } else {
            m.push(x)
        }
    }
}

/// What sanitizing makes of a sequence of items.
pub open spec fn sanitized(s: Seq<Item>) -> Seq<Item> {
    merge_gaps(positive_only(clamp_all(s)))
}

/// No duration is negative.
pub open spec fn all_nonneg(s: Seq<Item>) -> bool {
    forall|i: int| 0 <= i < s.len() ==> (#[trigger] s[i]).dur() >= 0
}

/// Every duration is positive.
pub open spec fn all_positive(s: Seq<Item>) -> bool {
    forall|i: int| 0 <= i < s.len() ==> (#[trigger] s[i]).dur() > 0
}

/// No two neighbours are both gaps.
pub open spec fn no_adjacent_gaps(s: Seq<Item>) -> bool {
    forall|i: int| 0 <= i && i + 1 < s.len() ==> !((#[trigger] s[i]).is_gap() && s[i + 1].is_gap())
}

/// The shape sanitizing leaves: positive durations, no adjacent gaps.
pub open spec fn is_sanitized(s: Seq<Item>) -> bool {
    all_positive(s) && no_adjacent_gaps(s)
}

proof fn lemma_with_dur_keeps(it: Item, d: i64)
    ensures
        it.with_dur(d).dur() == d,
        it.with_dur(d).is_gap() == it.is_gap(),
        it.with_dur(d).start() == it.start(),
        it.with_dur(d).id_spec() == it.id_spec(),
{
}

/// Clamping keeps the clamped sum and leaves no negative duration.
pub proof fn lemma_clamp_all(s: Seq<Item>)
    ensures
        sum_durs(clamp_all(s)) == sum_durs(s),
        all_nonneg(clamp_all(s)),
        clamp_all(s).len() == s.len(),
    decreases s.len(),
{
    if s.len() > 0 {
        lemma_clamp_all(s.drop_last());
        assert(clamp_all(s).drop_last() =~= clamp_all(s.drop_last()));
        lemma_with_dur_keeps(s.last(), 0);
    }
}

/// Dropping empty items keeps the clamped sum and leaves only positive durations.
pub proof fn lemma_positive_only(s: Seq<Item>)
    ensures
        sum_durs(positive_only(s)) == sum_durs(s),
        all_positive(positive_only(s)),
    decreases s.len(),
{
    if s.len() > 0 {
        lemma_positive_only(s.drop_last());
        let p = positive_only(s.drop_last());
        if s.last().dur() > 0 {
            assert(p.push(s.last()).drop_last() =~= p);
        }
    }
}

/// Merging gaps of non-negative durations keeps the sum, keeps positivity
/// and leaves no adjacent gaps.
pub proof fn lemma_merge_gaps(s: Seq<Item>)
    requires
        all_nonneg(s),
        fits(s),
    ensures
        sum_durs(merge_gaps(s)) == sum_durs(s),
        all_nonneg(merge_gaps(s)),
        all_positive(s) ==> all_positive(merge_gaps(s)),
        no_adjacent_gaps(merge_gaps(s)),
        merge_gaps(s).len() <= s.len(),
        s.len() > 0 ==> merge_gaps(s).len() > 0,
    decreases s.len(),
{
    if s.len() > 0 {
        let s0 = s.drop_last();
        assert(all_nonneg(s0));
        lemma_sum_nonneg(s0);
        lemma_merge_gaps(s0);
        let m = merge_gaps(s0);
        let x = s.last();
        if m.len() > 0 && m.last().is_gap() && x.is_gap() {
            let k = m.len() - 1;
            let d = (m.last().dur() + x.dur()) as i64;
            assert(m.drop_last().push(m.last()) =~= m);
            lemma_sum_nonneg(m.drop_last());
            lemma_with_dur_keeps(m.last(), d);
            let r = m.update(k, m.last().with_dur(d));
            assert(r.drop_last() =~= m.drop_last());
            assert(all_positive(s) ==> all_positive(r)) by {
                if all_positive(s) {
                    assert(all_positive(s0));
                    assert forall|i: int| 0 <= i < r.len() implies (#[trigger] r[i]).dur() > 0 by {
                        if i < k {
                            assert(r[i] == m[i]);
                        }
                    }
                }
            }
            assert forall|i: int| 0 <= i && i + 1 < r.len() implies !((#[trigger] r[i]).is_gap()
                && r[i + 1].is_gap()) by {
                if i + 1 < k {
                    assert(r[i] == m[i] && r[i + 1] == m[i + 1]);
                } else {
                    assert(r[i] == m[i]);
                    assert(m[i + 1] == m.last());
                }
            }
        } else {
            let r = m.push(x);
            assert(r.drop_last() =~= m);
            assert forall|i: int| 0 <= i && i + 1 < r.len() implies !((#[trigger] r[i]).is_gap()
                && r[i + 1].is_gap()) by {
                assert(r[i] == m[i]);
                if i + 1 < m.len() {
                    assert(r[i + 1] == m[i + 1]);
                }
            }
        }
    }
}

/// Sanitizing leaves positive durations, no adjacent gaps and the same total.
pub proof fn lemma_sanitized_shape(s: Seq<Item>)
    requires
        fits(s),
    ensures
        is_sanitized(sanitized(s)),
        sum_durs(sanitized(s)) == sum_durs(s),
{
    lemma_clamp_all(s);
    let c = clamp_all(s);
    lemma_positive_only(c);
    let p = positive_only(c);
    assert(all_nonneg(p));
    lemma_merge_gaps(p);
}

/// A sanitized sequence is left as it is by each step.
proof fn lemma_sanitized_fixed(s: Seq<Item>)
    requires
        is_sanitized(s),
    ensures
        clamp_all(s) == s,
        positive_only(s) == s,
        merge_gaps(s) == s,
    decreases s.len(),
{
    assert(clamp_all(s) =~= s);
    if s.len() > 0 {
        let s0 = s.drop_last();
        assert(is_sanitized(s0));
        lemma_sanitized_fixed(s0);
        assert(s0.push(s.last()) =~= s);
        if s0.len() > 0 {
            assert(s0.last() == s[s.len() - 2]);
        }
    }
}

/// A sequence already in sanitized shape is its own sanitization.
pub proof fn lemma_sanitized_fixed_pub(s: Seq<Item>)
    requires
        is_sanitized(s),
    ensures
        sanitized(s) == s,
{
    lemma_sanitized_fixed(s);
}

/// Sanitizing twice is sanitizing once.
pub proof fn law_sanitize_idempotent(s: Seq<Item>)
    requires
        fits(s),
    ensures
        sanitized(sanitized(s)) == sanitized(s),
{
    lemma_sanitized_shape(s);
    lemma_sanitized_fixed(sanitized(s));
}

/// After sanitizing, no two consecutive items are gaps and no duration is zero or less.
pub proof fn law_sanitized_has_no_empty_items_or_adjacent_gaps(s: Seq<Item>, i: int)
    requires
        fits(s),
        0 <= i < sanitized(s).len(),
    ensures
        sanitized(s)[i].dur() > 0,
        i + 1 < sanitized(s).len() ==> !(sanitized(s)[i].is_gap() && sanitized(s)[i + 1].is_gap()),
{
    lemma_sanitized_shape(s);
}

/// The number of gaps in a sequence of items.
pub open spec fn gap_count(s: Seq<Item>) -> nat
    decreases s.len(),
{
    if s.len() == 0 {
        0
    } else {
        gap_count(s.drop_last()) + if s.last().is_gap() { 1nat } else { 0nat }
    }
}

/// The gap count of a concatenation is the sum of the counts.
pub proof fn lemma_gap_count_concat(a: Seq<Item>, b: Seq<Item>)
    ensures
        gap_count(a + b) == gap_count(a) + gap_count(b),
    decreases b.len(),
{
    if b.len() == 0 {
        assert(a + b =~= a);
    } else {
        lemma_gap_count_concat(a, b.drop_last());
        assert((a + b).drop_last() =~= a + b.drop_last());
    }
}

proof fn lemma_gap_count_clamp(s: Seq<Item>)
    ensures
        gap_count(clamp_all(s)) == gap_count(s),
    decreases s.len(),
{
    if s.len() > 0 {
        lemma_gap_count_clamp(s.drop_last());
        assert(clamp_all(s).drop_last() =~= clamp_all(s.drop_last()));
        lemma_with_dur_keeps(s.last(), 0);
    }
}

proof fn lemma_gap_count_positive(s: Seq<Item>)
    ensures
        gap_count(positive_only(s)) <= gap_count(s),
    decreases s.len(),
{
    if s.len() > 0 {
        lemma_gap_count_positive(s.drop_last());
        let p = positive_only(s.drop_last());
        if s.last().dur() > 0 {
            assert(p.push(s.last()).drop_last() =~= p);
        }
    }
}

proof fn lemma_gap_count_merge(s: Seq<Item>)
    ensures
        gap_count(merge_gaps(s)) <= gap_count(s),
    decreases s.len(),
{
    if s.len() > 0 {
        let s0 = s.drop_last();
        lemma_gap_count_merge(s0);
        let m = merge_gaps(s0);
        let x = s.last();
        if m.len() > 0 && m.last().is_gap() && x.is_gap() {
            let d = (m.last().dur() + x.dur()) as i64;
            let r = m.update(m.len() - 1, m.last().with_dur(d));
            lemma_with_dur_keeps(m.last(), d);
            assert(r.drop_last() =~= m.drop_last());
            assert(m.drop_last().push(m.last()) =~= m);
        } else {
            assert(m.push(x).drop_last() =~= m);
        }
    }
}

/// Sanitizing never adds a gap.
pub proof fn lemma_sanitize_gap_count(s: Seq<Item>)
    ensures
        gap_count(sanitized(s)) <= gap_count(s),
{
    lemma_gap_count_clamp(s);
    lemma_gap_count_positive(clamp_all(s));
    lemma_gap_count_merge(positive_only(clamp_all(s)));
}

impl Track {
    /// Clamp negatives, drop empty items, merge adjacent gaps.
    pub fn sanitize(&mut self)
        requires
            fits(old(self).items@),
        ensures
            final(self).items@ == sanitized(old(self).items@),
            is_sanitized(final(self).items@),
            sum_durs(final(self).items@) == sum_durs(old(self).items@),
            final(self).same_header(*old(self)),
    {
        proof {
            lemma_clamp_all(self.items@);
            lemma_positive_only(clamp_all(self.items@));
            lemma_sanitized_shape(self.items@);
        }
        self.clamp_negative_durations();
        self.remove_zero_length_items();
        self.merge_adjacent_gaps();
    }

    /// Sets every negative duration to zero.
    pub fn clamp_negative_durations(&mut self)
        ensures
            final(self).items@ == clamp_all(old(self).items@),
            final(self).same_header(*old(self)),
    {
        let ghost orig = self.items@;
        let mut i: usize = 0;
        while i < self.items.len()
            invariant
                i <= self.items@.len(),
                self.items@.len() == orig.len(),
                forall|j: int| 0 <= j < i ==> self.items@[j] == clamp_item(orig[j]),
                forall|j: int| i <= j < orig.len() ==> self.items@[j] == orig[j],
                self.same_header(*old(self)),
            decreases orig.len() - i,
        {
            if self.items[i].duration() < 0 {
                self.items[i].set_duration(0);
            }
            i = i + 1;
        }
        assert(self.items@ =~= clamp_all(orig));
    }

    /// Removes every item whose duration is zero or less.
    pub fn remove_zero_length_items(&mut self)
        ensures
            final(self).items@ == positive_only(old(self).items@),
            final(self).same_header(*old(self)),
    {
        let ghost orig = self.items@;
        assert(orig.len() == self.items.len());
        let mut src: Vec<Item> = Vec::new();
        std::mem::swap(&mut src, &mut self.items);
        let mut i: usize = 0;
        while src.len() > 0
            invariant
                i <= orig.len(),
                orig.len() <= usize::MAX,
                src@ == orig.skip(i as int),
                self.items@ == positive_only(orig.take(i as int)),
                self.same_header(*old(self)),
            decreases src@.len(),
        {
            assert(i < orig.len());
            let it = src.remove(0);
            assert(orig.take(i as int + 1).drop_last() =~= orig.take(i as int));
            assert(src@ =~= orig.skip(i as int + 1));
            if it.duration() > 0 {
                self.items.push(it);
            }
            i = i + 1;
        }
        assert(orig.take(i as int) =~= orig);
    }

    /// Folds every gap that follows a gap into it, summing durations.
    pub fn merge_adjacent_gaps(&mut self)
        requires
            all_nonneg(old(self).items@),
            fits(old(self).items@),
        ensures
            final(self).items@ == merge_gaps(old(self).items@),
            final(self).same_header(*old(self)),
    {
        let ghost orig = self.items@;
        assert(orig.len() == self.items.len());
        let mut src: Vec<Item> = Vec::new();
        std::mem::swap(&mut src, &mut self.items);
        let mut i: usize = 0;
        while src.len() > 0
            invariant
                i <= orig.len(),
                orig.len() <= usize::MAX,
                src@ == orig.skip(i as int),
                self.items@ == merge_gaps(orig.take(i as int)),
                all_nonneg(orig),
                fits(orig),
                self.same_header(*old(self)),
            decreases src@.len(),
        {
            assert(i < orig.len());
            let it = src.remove(0);
            let ghost pre = orig.take(i as int + 1);
            assert(pre.drop_last() =~= orig.take(i as int));
            assert(src@ =~= orig.skip(i as int + 1));
            proof {
                assert(all_nonneg(pre));
                crate::timing::lemma_sum_take_mono(orig, i as int + 1, orig.len() as int);
                lemma_merge_gaps(pre);
                lemma_merge_gaps(pre.drop_last());
            }
            let n = self.items.len();
            if n > 0 && self.items[n - 1].is_gap_item() && it.is_gap_item() {
                let mut last = self.items.pop().unwrap();
                proof {
                    let m = merge_gaps(orig.take(i as int));
                    assert(m.drop_last().push(m.last()) =~= m);
                    crate::timing::lemma_sum_nonneg(m.drop_last());
                }
                let d = last.duration() + it.duration();
                last.set_duration(d);
                self.items.push(last);
            } else {
                self.items.push(it);
            }
            i = i + 1;
        }
        assert(orig.take(i as int) =~= orig);
    }
}

impl Stack {
    /// Sanitizes every track; nothing else changes.
    pub fn sanitize(&mut self)
        requires
            forall|i: int| 0 <= i < old(self).children@.len() ==> fits(old(self).children@[i].items@),
        ensures
            final(self).same_header(*old(self)),
            final(self).children@.len() == old(self).children@.len(),
            forall|i: int| 0 <= i < final(self).children@.len() ==> (#[trigger] final(self).children@[i]).items@
                == sanitized(old(self).children@[i].items@),
            forall|i: int| 0 <= i < final(self).children@.len() ==> (#[trigger] final(self).children@[i]).same_header(
                old(self).children@[i],
            ),
            forall|i: int|
                0 <= i < final(self).children@.len() && is_sanitized(old(self).children@[i].items@)
                    ==> (#[trigger] final(self).children@[i]).items@ == old(self).children@[i].items@,
    {
        let ghost orig = self.children@;
        let mut i: usize = 0;
        while i < self.children.len()
            invariant
                i <= self.children@.len(),
                self.children@.len() == orig.len(),
                self.same_header(*old(self)),
                orig == old(self).children@,
                forall|j: int| 0 <= j < orig.len() ==> fits(orig[j].items@),
                forall|j: int| 0 <= j < i ==> (#[trigger] self.children@[j]).items@ == sanitized(orig[j].items@),
                forall|j: int| 0 <= j < i ==> (#[trigger] self.children@[j]).same_header(orig[j]),
                forall|j: int| i <= j < orig.len() ==> self.children@[j] == orig[j],
            decreases orig.len() - i,
        {
            self.children[i].sanitize();
            i = i + 1;
        }
        proof {
            assert forall|j: int| 0 <= j < orig.len() && is_sanitized(orig[j].items@) implies (#[trigger] self.children@[j]).items@
                == orig[j].items@ by {
                lemma_sanitized_fixed_pub(orig[j].items@);
            }
        }
    }
}

impl Timeline {
    /// Sanitizes every track; nothing else changes. A timeline whose tracks
    /// are already sanitized keeps the same items.
    pub fn sanitize(&mut self)
        requires
            forall|i: int| 0 <= i < old(self).tracks.children@.len() ==> fits(old(self).tracks.children@[i].items@),
        ensures
            final(self).otio_schema == old(self).otio_schema,
            final(self).name == old(self).name,
            final(self).metadata == old(self).metadata,
            final(self).tracks.same_header(old(self).tracks),
            final(self).tracks.children@.len() == old(self).tracks.children@.len(),
            forall|i: int| 0 <= i < final(self).tracks.children@.len() ==> (#[trigger] final(self).tracks.children@[i]).items@
                == sanitized(old(self).tracks.children@[i].items@),
            forall|i: int| 0 <= i < final(self).tracks.children@.len() ==> (#[trigger] final(self).tracks.children@[i]).same_header(
                old(self).tracks.children@[i],
            ),
            forall|i: int|
                0 <= i < final(self).tracks.children@.len() && is_sanitized(old(self).tracks.children@[i].items@)
                    ==> (#[trigger] final(self).tracks.children@[i]).items@ == old(self).tracks.children@[i].items@,
    {
        self.tracks.sanitize();
    }
}

} // verus!
