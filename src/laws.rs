//! Properties of the editor that relate several operations or hold of every input.
use vstd::prelude::*;

use crate::edit::{
    inserted, OverlapPolicy,
    held, holder, inside_item, left_piece, placed, prefix_before, right_piece, split_seq, splits_at,
    snap_index, InsertPolicy,
};
use crate::model::Item;
use crate::sanitize::{
    clamp_all, clamp_item, is_sanitized, lemma_sanitized_fixed_pub, merge_gaps, positive_only,
    sanitized,
};
use crate::time::pos;
use crate::timing::{fits, holds_time, offsets_fit, lemma_sum_concat, lemma_sum_take_mono, lemma_sum_take_next, start_of, sum_durs};

verus! {

/// The plain sum of the durations.
pub open spec fn raw_sum(s: Seq<Item>) -> int
    decreases s.len(),
{
    if s.len() == 0 {
        0
    } else {
        raw_sum(s.drop_last()) + s.last().dur()
    }
}

/// On a track without negative durations (every sanitized track), the total
/// duration is the plain sum of the item durations.
pub proof fn law_total_is_sum_of_durations(s: Seq<Item>)
    requires
        forall|i: int| 0 <= i < s.len() ==> (#[trigger] s[i]).dur() >= 0,
    ensures
        sum_durs(s) == raw_sum(s),
    decreases s.len(),
{
    if s.len() > 0 {
        law_total_is_sum_of_durations(s.drop_last());
    }
}

/// Splitting item `i` at a time `t` inside it keeps the total; the pieces'
/// durations add up to the item's; the left piece keeps the item's
/// start, media offset and identifier and lasts `d = t - start`; the right
/// piece starts at `start + d`, its media offset (for a clip) is advanced by
/// `d`, and it lasts `duration - d`.
pub proof fn law_split_pieces(s: Seq<Item>, i: int, t: int, id: Option<String>)
    requires
        fits(s),
        offsets_fit(s),
        inside_item(s, i, t),
    ensures
        ({
            let d = t - start_of(s, i);
            let u = split_seq(s, i, d, id);
            &&& sum_durs(u) == sum_durs(s)
            &&& u[i].dur() + u[i + 1].dur() == s[i].dur()
            &&& u[i].dur() == d
            &&& u[i + 1].dur() == s[i].dur() - d
            &&& start_of(u, i) == start_of(s, i)
            &&& start_of(u, i + 1) == start_of(s, i) + d
            &&& u[i].start() == s[i].start()
            &&& u[i].id_spec() == s[i].id_spec()
            &&& u[i].is_gap() == s[i].is_gap() && u[i + 1].is_gap() == s[i].is_gap()
            &&& !s[i].is_gap() ==> u[i + 1].start() == s[i].start() + d
        }),
{
    let d = t - start_of(s, i);
    let u = split_seq(s, i, d, id);
    let l = left_piece(s[i], d);
    let r = right_piece(s[i], d).with_id(id);
    assert(u[i] == l);
    assert(u[i + 1] == r);
    assert(l.dur() == d);
    assert(r.dur() == s[i].dur() - d);
    assert(u.take(i) =~= s.take(i));
    assert(u.take(i + 1) =~= s.take(i).push(l));
    assert(u.take(i + 1).drop_last() =~= s.take(i));
    let tk = s.take(i);
    let k = s.skip(i + 1);
    assert(u =~= tk + seq![l, r] + k);
    assert(seq![l, r].drop_last() =~= seq![l]);
    assert(seq![l].drop_last() =~= Seq::<Item>::empty());
    assert(sum_durs(Seq::<Item>::empty()) == 0);
    assert(seq![l].last() == l && seq![l, r].last() == r);
    assert(sum_durs(seq![l]) == pos(l.dur()));
    assert(sum_durs(seq![l, r]) == sum_durs(seq![l]) + pos(r.dur()));
    assert(sum_durs(seq![s[i]]) == pos(s[i].dur())) by {
        assert(seq![s[i]].drop_last() =~= Seq::<Item>::empty());
        assert(seq![s[i]].last() == s[i]);
    }
    lemma_sum_concat(tk, seq![l, r]);
    lemma_sum_concat(tk + seq![l, r], k);
    assert(s =~= tk + seq![s[i]] + k);
    assert(seq![s[i]].drop_last() =~= Seq::<Item>::empty());
    assert(seq![s[i]].last() == s[i]);
    lemma_sum_concat(tk, seq![s[i]]);
    lemma_sum_concat(tk + seq![s[i]], k);
    assert(sum_durs(u) == sum_durs(s));
    assert(start_of(u, i) == start_of(s, i));
    assert(start_of(u, i + 1) == start_of(s, i) + d);
    assert(u[i].start() == s[i].start());
    assert(u[i].id_spec() == s[i].id_spec());
    assert(!s[i].is_gap() ==> u[i + 1].start() == s[i].start() + d);
}

/// Splitting at a boundary (the start of some item, or the end of the
/// track) changes nothing: no item has that time strictly inside it.
pub proof fn law_split_at_boundary_is_noop(s: Seq<Item>, k: int)
    requires
        0 <= k <= s.len(),
    ensures
        forall|i: int| !inside_item(s, i, start_of(s, k)),
{
    assert forall|i: int| !inside_item(s, i, start_of(s, k)) by {
        if inside_item(s, i, start_of(s, k)) {
            if k <= i {
                lemma_sum_take_mono(s, k, i);
            } else {
                lemma_sum_take_next(s, i);
                lemma_sum_take_mono(s, i + 1, k);
            }
        }
    }
}

proof fn lemma_clamp_concat(a: Seq<Item>, x: Item, b: Seq<Item>)
    requires
        x.dur() > 0,
    ensures
        clamp_all(a.push(x) + b) == clamp_all(a).push(x) + clamp_all(b),
{
    assert(clamp_item(x) == x);
    assert(clamp_all(a.push(x) + b) =~= clamp_all(a).push(x) + clamp_all(b));
}

proof fn lemma_positive_concat(a: Seq<Item>, x: Item, b: Seq<Item>)
    requires
        x.dur() > 0,
    ensures
        positive_only(a.push(x) + b) == positive_only(a).push(x) + positive_only(b),
    decreases b.len(),
{
    if b.len() == 0 {
        assert(a.push(x) + b =~= a.push(x));
        assert(a.push(x).drop_last() =~= a);
        assert(positive_only(a).push(x) + positive_only(b) =~= positive_only(a).push(x));
    } else {
        lemma_positive_concat(a, x, b.drop_last());
        assert((a.push(x) + b).drop_last() =~= a.push(x) + b.drop_last());
        let p = positive_only(a).push(x);
        if b.last().dur() > 0 {
            assert(p + positive_only(b.drop_last()).push(b.last()) =~= (p + positive_only(
                b.drop_last(),
            )).push(b.last()));
        }
    }
}

proof fn lemma_merge_concat(a: Seq<Item>, x: Item, b: Seq<Item>)
    requires
        !x.is_gap(),
    ensures
        merge_gaps(a.push(x) + b) == merge_gaps(a).push(x) + merge_gaps(b),
    decreases b.len(),
{
    if b.len() == 0 {
        assert(a.push(x) + b =~= a.push(x));
        assert(a.push(x).drop_last() =~= a);
        assert(merge_gaps(a).push(x) + merge_gaps(b) =~= merge_gaps(a).push(x));
    } else {
        lemma_merge_concat(a, x, b.drop_last());
        assert((a.push(x) + b).drop_last() =~= a.push(x) + b.drop_last());
        let m = merge_gaps(a).push(x);
        let g = merge_gaps(b.drop_last());
        let f = b.last();
        let mg = m + g;
        if g.len() == 0 {
            assert(mg =~= m);
            assert(mg.last() == x);
            assert(merge_gaps(b.drop_last().drop_last()).len() >= 0);
            assert(merge_gaps(b) == g.push(f));
            assert(m + g.push(f) =~= mg.push(f));
        } else {
            assert(mg.last() == g.last());
            if g.last().is_gap() && f.is_gap() {
                let nl = g.last().with_dur((g.last().dur() + f.dur()) as i64);
                assert(mg.update(mg.len() - 1, nl) =~= m + g.update(g.len() - 1, nl));
            } else {
                assert(m + g.push(f) =~= mg.push(f));
            }
        }
    }
}

/// Sanitizing around a clip of positive duration sanitizes each side on its own.
pub proof fn lemma_sanitized_around_clip(a: Seq<Item>, x: Item, b: Seq<Item>)
    requires
        !x.is_gap(),
        x.dur() > 0,
    ensures
        sanitized(a.push(x) + b) == sanitized(a).push(x) + sanitized(b),
{
    lemma_clamp_concat(a, x, b);
    lemma_positive_concat(clamp_all(a), x, clamp_all(b));
    lemma_merge_concat(positive_only(clamp_all(a)), x, positive_only(clamp_all(b)));
}

/// A clip of positive duration placed after a sanitized prefix lands right
/// after it: the prefix is kept as it is and the clip starts where the
/// prefix ends.
pub proof fn law_placed_after_prefix(pre: Seq<Item>, x: Item, post: Seq<Item>)
    requires
        is_sanitized(pre),
        !x.is_gap(),
        x.dur() > 0,
    ensures
        placed(pre, x, post).len() > pre.len(),
        placed(pre, x, post).take(pre.len() as int) == pre,
        placed(pre, x, post)[pre.len() as int] == x,
        start_of(placed(pre, x, post), pre.len() as int) == sum_durs(pre),
{
    lemma_sanitized_around_clip(pre, x, post);
    lemma_sanitized_fixed_pub(pre);
    let f = placed(pre, x, post);
    assert(f == pre.push(x) + sanitized(post));
    assert(f.take(pre.len() as int) =~= pre);
}

/// With SplitAndInsert, the items that end up before the inserted item end
/// exactly at the requested time when that time is strictly inside an item
/// or on the start of one.
pub proof fn law_split_insert_prefix_ends_at_time(s: Seq<Item>, t: int)
    requires
        fits(s),
        0 <= t <= sum_durs(s),
        splits_at(s, t, InsertPolicy::SplitAndInsert) || (held(s, t) && start_of(s, holder(s, t)) == t),
    ensures
        sum_durs(prefix_before(s, t, InsertPolicy::SplitAndInsert)) == t,
{
    let i = holder(s, t);
    if splits_at(s, t, InsertPolicy::SplitAndInsert) {
        let l = left_piece(s[i], t - start_of(s, i));
        assert(s.take(i).push(l).drop_last() =~= s.take(i));
    } else {
        assert(prefix_before(s, t, InsertPolicy::SplitAndInsert) == s.take(i));
    }
}

/// The items before an insertion at time `t` form a sanitized sequence when
/// the track is sanitized.
proof fn lemma_prefix_sanitized(s: Seq<Item>, t: int, p: InsertPolicy)
    requires
        is_sanitized(s),
        fits(s),
        0 <= t <= sum_durs(s),
    ensures
        is_sanitized(prefix_before(s, t, p)),
        prefix_before(s, t, p).len() <= s.len(),
{
    if held(s, t) {
        let i = holder(s, t);
        assert(holds_time(s, i, t));
    }
    let pre = prefix_before(s, t, p);
    if splits_at(s, t, p) {
        let i = holder(s, t);
        let d = t - start_of(s, i);
        assert(pre[pre.len() - 1] == left_piece(s[i], d));
        assert forall|j: int| 0 <= j && j + 1 < pre.len() implies !((#[trigger] pre[j]).is_gap()
            && pre[j + 1].is_gap()) by {
            assert(pre[j] == s[j]);
            if j + 1 < i {
                assert(pre[j + 1] == s[j + 1]);
            }
        }
        assert forall|j: int| 0 <= j < pre.len() implies (#[trigger] pre[j]).dur() > 0 by {
            if j < i {
                assert(pre[j] == s[j]);
            }
        }
    } else {
        let k = snap_index(s, t, p);
        assert forall|j: int| 0 <= j && j + 1 < pre.len() implies !((#[trigger] pre[j]).is_gap()
            && pre[j + 1].is_gap()) by {
            assert(pre[j] == s[j] && pre[j + 1] == s[j + 1]);
        }
        assert forall|j: int| 0 <= j < pre.len() implies (#[trigger] pre[j]).dur() > 0 by {
            assert(pre[j] == s[j]);
        }
    }
}

/// Inserting a clip `x` of positive duration with Override and
/// SplitAndInsert at a time `t` inside an item or at the start of one, on a
/// sanitized track: every earlier time is held by the same item index as
/// before, and every time in `[t, t + x.duration)` is held by `x`.
pub proof fn law_override_insert_keeps_earlier_times(
    s: Seq<Item>,
    t: int,
    x: Item,
    post: Seq<Item>,
)
    requires
        fits(s),
        is_sanitized(s),
        !x.is_gap(),
        x.dur() > 0,
        0 <= t <= sum_durs(s),
        splits_at(s, t, InsertPolicy::SplitAndInsert) || (held(s, t) && start_of(s, holder(s, t)) == t),
    ensures
        ({
            let f = placed(prefix_before(s, t, InsertPolicy::SplitAndInsert), x, post);
            let n = prefix_before(s, t, InsertPolicy::SplitAndInsert).len() as int;
            &&& f[n] == x
            &&& forall|u: int| t <= u < t + x.dur() ==> holds_time(f, n, u)
            &&& forall|u: int, j: int| u < t ==> (holds_time(s, j, u) <==> holds_time(f, j, u))
        }),
{
    let p = InsertPolicy::SplitAndInsert;
    let pre = prefix_before(s, t, p);
    let n = pre.len() as int;
    lemma_prefix_sanitized(s, t, p);
    law_placed_after_prefix(pre, x, post);
    law_split_insert_prefix_ends_at_time(s, t);
    let f = placed(pre, x, post);
    let i = holder(s, t);
    assert(holds_time(s, i, t));
    assert(pre.len() == i || pre.len() == i + 1);
    assert forall|u: int, j: int| u < t implies (holds_time(s, j, u) <==> holds_time(f, j, u)) by {
        if 0 <= j < n {
            assert(f.take(j) == pre.take(j)) by {
                assert(f.take(j) =~= f.take(n).take(j));
            }
            assert(f[j] == pre[j]);
            if j < i {
                assert(pre[j] == s[j]);
                assert(pre.take(j) =~= s.take(j));
            } else {
                assert(j == i);
                assert(pre.take(j) =~= s.take(j));
                lemma_sum_take_next(pre, j);
                assert(pre.take(j + 1) =~= pre);
            }
        } else {
            if j >= n && j < f.len() {
                lemma_sum_take_mono(f, n, j);
            }
            if j >= n && j < s.len() {
                if n == i + 1 {
                    lemma_sum_take_next(s, i);
                    lemma_sum_take_mono(s, i + 1, j);
                } else {
                    assert(pre =~= s.take(i));
                    lemma_sum_take_mono(s, i, j);
                }
            }
        }
    }
}

/// After `resize_item` with a clip of positive new duration and a new start
/// `t` inside an item or at the start of one (of the track without the
/// clip), the clip is found again and starts exactly at `t`.
pub proof fn law_resize_lands_at_start(rest: Seq<Item>, t: int, moved: Item, post: Seq<Item>)
    requires
        fits(rest),
        !moved.is_gap(),
        moved.dur() > 0,
        0 <= t <= sum_durs(rest),
        splits_at(rest, t, InsertPolicy::SplitAndInsert) || (held(rest, t) && start_of(rest, holder(rest, t)) == t),
    ensures
        ({
            let pre = prefix_before(rest, t, InsertPolicy::SplitAndInsert);
            let f = sanitized(pre.push(moved) + post);
            let n = sanitized(pre).len() as int;
            &&& 0 <= n < f.len()
            &&& f[n] == moved
            &&& start_of(f, n) == t
        }),
{
    let pre = prefix_before(rest, t, InsertPolicy::SplitAndInsert);
    law_split_insert_prefix_ends_at_time(rest, t);
    lemma_sanitized_around_clip(pre, moved, post);
    crate::sanitize::lemma_sanitized_shape(pre);
    let f = sanitized(pre.push(moved) + post);
    let sp = sanitized(pre);
    assert(f.take(sp.len() as int) =~= sp);
}

/// Inserting with Push at a time within the track (`0 <= t <= total`)
/// lengthens the track by exactly the item's clamped duration, whatever the
/// insert policy.
pub proof fn law_push_insert_adds_duration(
    s: Seq<Item>,
    t: int,
    x: Item,
    p: InsertPolicy,
    f: Seq<Item>,
)
    requires
        inserted(s, t, x, OverlapPolicy::Push, p, f),
        0 <= t <= sum_durs(s),
    ensures
        sum_durs(f) == sum_durs(s) + pos(x.dur()),
{
}

} // verus!
