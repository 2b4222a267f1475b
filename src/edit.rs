//! The track editor: split, insert, resize, replace and delete.
use vstd::prelude::*;

use crate::ids::{fresh_id, hex_digits, is_hex_id, lemma_hex_digits_injective, number_id, pow16};
use crate::track::{item_has_id, IdMetadataExt};
use vstd::relations::injective_on;
use vstd::set_lib::{lemma_int_range, lemma_len_subset, lemma_map_size, set_int_range};
use crate::model::{find_reference, has_key, Gap, Item, MediaReference};
use crate::time::{pos, clamp_nonneg, Nanos, EPS};
use crate::timing::{
    fits, holds_time, lemma_holds_unique, lemma_item_le_sum, lemma_sum_concat, lemma_sum_take_mono,
    lemma_sum_take_next, offsets_fit, start_of, sum_durs,
};
use crate::sanitize::{gap_count, is_sanitized, lemma_sanitized_shape, sanitized};
use crate::track::Track;

verus! {

/// No item of `s` has identifier `id`.
pub open spec fn id_unused(s: Seq<Item>, id: Seq<char>) -> bool {
    forall|j: int| 0 <= j < s.len() ==> (#[trigger] s[j]).id_view() != Some(id)
}

/// Whether no item has identifier `id`.
fn no_item_has_id(items: &Vec<Item>, id: &String) -> (r: bool)
    ensures
        r == id_unused(items@, id@),
{
    let mut j: usize = 0;
    while j < items.len()
        invariant
            j <= items@.len(),
            forall|m: int| 0 <= m < j ==> (#[trigger] items@[m]).id_view() != Some(id@),
        decreases items@.len() - j,
    {
        if item_has_id(&items[j], id) {
            return false;
        }
        j = j + 1;
    }
    true
}

/// Among the identifiers made of the numbers `0..=s.len()`, one is unused:
/// `s` has too few items to use them all.
proof fn lemma_some_number_id_unused(s: Seq<Item>)
    requires
        s.len() < pow16(12),
    ensures
        exists|m: nat| m <= s.len() && id_unused(s, #[trigger] hex_digits(m, 12)),
{
    if forall|m: nat| m <= s.len() ==> !id_unused(s, #[trigger] hex_digits(m, 12)) {
        let n = s.len() as int;
        let f = |k: int|
            choose|j: int| 0 <= j < s.len() && (#[trigger] s[j]).id_view() == Some(hex_digits(k as nat, 12));
        let ks = set_int_range(0, n + 1);
        let js = set_int_range(0, n);
        lemma_int_range(0, n + 1);
        lemma_int_range(0, n);
        assert forall|k: int| ks.contains(k) implies 0 <= #[trigger] f(k) < n && s[f(k)].id_view() == Some(
            hex_digits(k as nat, 12),
        ) by {
            assert(!id_unused(s, hex_digits(k as nat, 12)));
        }
        assert(injective_on(f, ks)) by {
            assert forall|k1: int, k2: int|
                ks.contains(k1) && ks.contains(k2) && #[trigger] f(k1) == #[trigger] f(k2) implies k1 == k2 by {
                lemma_hex_digits_injective(k1 as nat, k2 as nat, 12);
            }
        }
        lemma_map_size(ks, ks.map(f), f);
        assert(ks.map(f).subset_of(js));
        lemma_len_subset(ks.map(f), js);
    }
}

/// A fresh identifier that no item of `items` has, drawn at random; should
/// the draw collide, the first free identifier made of a number.
fn fresh_item_id(items: &Vec<Item>) -> (r: String)
    ensures
        is_hex_id(r@),
        items@.len() < pow16(12) ==> id_unused(items@, r@),
{
    let r = fresh_id();
    if no_item_has_id(items, &r) {
        return r;
    }
    let n = items.len();
    proof {
        reveal_with_fuel(pow16, 13);
        assert(pow16(12) == 281474976710656);
    }
    if n as u64 >= 281474976710656u64 {
        return r;
    }
    proof {
        lemma_some_number_id_unused(items@);
    }
    let mut k: u64 = 0;
    while k <= n as u64
        invariant
            k <= n + 1,
            n == items@.len(),
            n < pow16(12),
            exists|m: nat| m <= n && id_unused(items@, #[trigger] hex_digits(m, 12)),
            forall|m: nat| m < k ==> !id_unused(items@, #[trigger] hex_digits(m, 12)),
        decreases n + 1 - k,
    {
        let c = number_id(k);
        if no_item_has_id(items, &c) {
            return c;
        }
        k = k + 1;
    }
    proof {
        let m = choose|m: nat| m <= n && id_unused(items@, #[trigger] hex_digits(m, 12));
        assert(m < k);
    }
    r
}

/// Time `t` falls inside item `i`, more than the tolerance away from both of its ends.
pub open spec fn inside_item(s: Seq<Item>, i: int, t: int) -> bool {
    &&& holds_time(s, i, t)
    &&& t - start_of(s, i) > EPS
    &&& t - start_of(s, i) < pos(s[i].dur()) - EPS
}

/// The first `d` of an item.
pub open spec fn left_piece(it: Item, d: int) -> Item {
    it.with_dur(d as i64)
}

/// An item without its first `d`: a clip's media offset advances by `d`.
pub open spec fn right_piece(it: Item, d: int) -> Item {
    let r = it.with_dur((it.dur() - d) as i64);
    if it.is_gap() {
        r
    } else {
        r.with_start((it.start() + d) as i64)
    }
}

/// The item sequence after splitting item `i` at offset `d`, the right piece
/// carrying identifier `id`.
pub open spec fn split_seq(s: Seq<Item>, i: int, d: int, id: Option<String>) -> Seq<Item> {
    s.take(i).push(left_piece(s[i], d)).push(right_piece(s[i], d).with_id(id)) + s.skip(i + 1)
}

/// Sum of a three-part sequence.
proof fn lemma_sum3(a: Seq<Item>, b: Seq<Item>, c: Seq<Item>)
    ensures
        sum_durs(a + b + c) == sum_durs(a) + sum_durs(b) + sum_durs(c),
{
    lemma_sum_concat(a, b);
    lemma_sum_concat(a + b, c);
}

/// Splitting keeps the total and keeps clip offsets in range.
proof fn lemma_split_seq(s: Seq<Item>, i: int, d: int, id: Option<String>)
    requires
        fits(s),
        offsets_fit(s),
        0 <= i < s.len(),
        0 < d < s[i].dur(),
    ensures
        sum_durs(split_seq(s, i, d, id)) == sum_durs(s),
        fits(split_seq(s, i, d, id)),
        offsets_fit(split_seq(s, i, d, id)),
        split_seq(s, i, d, id).len() == s.len() + 1,
{
    let l = left_piece(s[i], d);
    let r = right_piece(s[i], d).with_id(id);
    let t = s.take(i);
    let k = s.skip(i + 1);
    assert(t.push(l).push(r) =~= t + seq![l, r]);
    assert(seq![l, r].drop_last() =~= seq![l]);
    assert(seq![l].drop_last() =~= Seq::<Item>::empty());
    assert(sum_durs(Seq::<Item>::empty()) == 0);
    assert(seq![l].last() == l);
    assert(seq![l, r].last() == r);
    assert(seq![s[i]].last() == s[i]);
    assert(sum_durs(seq![l]) == pos(l.dur()));
    assert(sum_durs(seq![l, r]) == sum_durs(seq![l]) + pos(r.dur()));
    assert(sum_durs(seq![l, r]) == s[i].dur());
    lemma_sum3(t, seq![l, r], k);
    assert(s =~= t + seq![s[i]] + k);
    assert(seq![s[i]].drop_last() =~= Seq::<Item>::empty());
    assert(sum_durs(seq![s[i]]) == pos(s[i].dur()));
    lemma_sum3(t, seq![s[i]], k);
    assert(t.push(l).push(r) + k == split_seq(s, i, d, id));
    let u = split_seq(s, i, d, id);
    assert forall|j: int| 0 <= j < u.len() && !(#[trigger] u[j]).is_gap() implies u[j].start()
        + pos(u[j].dur()) <= i64::MAX by {
        if j < i {
            assert(u[j] == s[j]);
        } else if j > i + 1 {
            assert(u[j] == s[j - 1]);
        }
    }
}

impl Track {
    /// Splits the item holding time `t` in two at `t`. Nothing changes when no
    /// item holds `t` or `t` is within the tolerance of the item's ends.
    pub fn split_at_time(&mut self, t: Nanos)
        requires
            old(self).fits(),
        ensures
            final(self).fits(),
            sum_durs(final(self).items@) == sum_durs(old(self).items@),
            final(self).same_header(*old(self)),
            (forall|i: int| !inside_item(old(self).items@, i, t as int)) ==> final(self).items@
                == old(self).items@,
            forall|j: int|
                0 <= j <= old(self).items@.len() && start_of(old(self).items@, j) <= t
                    ==> #[trigger] final(self).items@.take(j) == old(self).items@.take(j),
            forall|i: int|
                inside_item(old(self).items@, i, t as int) ==> {
                    let d = t - start_of(old(self).items@, i);
                    let id = final(self).items@[i + 1].id_spec();
                    &&& fresh_piece_id(old(self).items@, id)
                    &&& final(self).items@.len() == old(self).items@.len() + 1
                    &&& forall|j: int| 0 <= j < final(self).items@.len() && j != i + 1
                        ==> final(self).items@[j] == split_seq(old(self).items@, i, d, id)[j]
                    &&& final(self).items@[i + 1].equiv(&split_seq(old(self).items@, i, d, id)[i + 1])
                },
    {
        let ghost s = self.items@;
        let found = self.get_item_at_time(t);
        let i = match found {
            Some(i) => i,
            None => {
                return;
            },
        };
        proof {
            assert forall|j: int| inside_item(s, j, t as int) implies j == i by {
                lemma_holds_unique(s, i as int, j, t as int);
            }
            lemma_item_le_sum(s, i as int);
        }
        assert(i < self.items.len());
        let next = i + 1;
        let start = self.start_time_of_item(i);
        let d = t - start;
        let total = clamp_nonneg(self.items[i].duration());
        if d <= EPS || d >= total - EPS {
            return;
        }
        let mut right = self.items[i].duplicate();
        let rd = self.items[i].duration() - d;
        right.set_duration(rd);
        if !right.is_gap_item() {
            let off = right.media_offset() + d;
            right.set_start(off);
        }
        let id = fresh_item_id(&self.items);
        right.replace_id(Some(id));
        self.items[i].set_duration(d);
        self.items.insert(next, right);
        proof {
            assert(inside_item(s, i as int, t as int));
            let idv = self.items@[i + 1].id_spec();
            let u = split_seq(s, i as int, d as int, idv);
            lemma_split_seq(s, i as int, d as int, idv);
            assert forall|j: int| 0 <= j < self.items@.len() && j != i + 1 implies self.items@[j]
                == u[j] by {
                if j < i {
                    assert(self.items@[j] == s[j]);
                } else if j > i + 1 {
                    assert(self.items@[j] == s[j - 1]);
                }
            }
            assert(self.items@[i + 1].equiv(&u[i as int + 1]));
            assert forall|j: int|
                0 <= j <= s.len() && start_of(s, j) <= t implies #[trigger] self.items@.take(j)
                == s.take(j) by {
                if j > i {
                    lemma_sum_take_next(s, i as int);
                    lemma_sum_take_mono(s, i as int + 1, j);
                } else {
                    assert(self.items@.take(j) =~= s.take(j));
                }
            }
            assert(sum_durs(self.items@) == sum_durs(u)) by {
                lemma_equiv_seq_sum(self.items@, u);
            }
        }
    }
}

/// The identifier the right piece got when `s1` is `s0` split at `b`.
pub open spec fn split_id(s0: Seq<Item>, s1: Seq<Item>, b: int) -> Option<String> {
    if exists|i: int| inside_item(s0, i, b) {
        let i = choose|i: int| inside_item(s0, i, b);
        s1[i + 1].id_spec()
    } else {
        None
    }
}

/// Given `s1`, the result of splitting `s0` at `b`, the items kept after an
/// override are those of `override_tail`, up to copies.
proof fn lemma_split_tail(s0: Seq<Item>, s1: Seq<Item>, b: int, idx: int, k: int)
    requires
        0 <= idx,
        (forall|i: int| !inside_item(s0, i, b)) ==> s1 == s0,
        forall|i: int|
            inside_item(s0, i, b) ==> {
                let d = b - start_of(s0, i);
                let id = s1[i + 1].id_spec();
                &&& s1.len() == s0.len() + 1
                &&& forall|j: int| 0 <= j < s1.len() && j != i + 1 ==> s1[j] == split_seq(s0, i, d, id)[j]
                &&& s1[i + 1].equiv(&split_seq(s0, i, d, id)[i + 1])
            },
        k == skip_until(s1, idx, b - EPS),
        idx <= k <= s1.len(),
    ensures
        seq_equiv(s1.skip(k), override_tail(s0, idx, b, split_id(s0, s1, b))),
{
    let idv = split_id(s0, s1, b);
    let u = after_split(s0, b, idv);
    assert(s1.len() == u.len() && forall|j: int| 0 <= j < s1.len() ==> (#[trigger] s1[j]).equiv(&u[j])) by {
        if exists|i: int| inside_item(s0, i, b) {
            let i = choose|i: int| inside_item(s0, i, b);
            assert(split_seq(s0, i, b - start_of(s0, i), idv).len() == s0.len() + 1);
            assert forall|j: int| 0 <= j < s1.len() implies (#[trigger] s1[j]).equiv(&u[j]) by {
                if j != i + 1 {
                    assert(s1[j] == u[j]);
                    lemma_equiv_refl(s1[j]);
                }
            }
        } else {
            assert forall|j: int| 0 <= j < s1.len() implies (#[trigger] s1[j]).equiv(&u[j]) by {
                lemma_equiv_refl(s1[j]);
            }
        }
    }
    assert forall|j: int| 0 <= j < s1.len() implies s1[j].dur() == u[j].dur() by {
        assert(s1[j].equiv(&u[j]));
    }
    lemma_skip_until_same_durs(s1, u, idx, b - EPS);
    let post = s1.skip(k);
    assert forall|j: int| 0 <= j < post.len() implies (#[trigger] post[j]).equiv(&u.skip(k)[j]) by {
        assert(post[j] == s1[k + j]);
        assert(u.skip(k)[j] == u[k + j]);
        assert(s1[k + j].equiv(&u[k + j]));
    }
}

/// `s1`, the result of splitting `s0` at `b`, is `after_split` up to copies.
proof fn lemma_split_equiv(s0: Seq<Item>, s1: Seq<Item>, b: int)
    requires
        (forall|i: int| !inside_item(s0, i, b)) ==> s1 == s0,
        forall|i: int|
            inside_item(s0, i, b) ==> {
                let d = b - start_of(s0, i);
                let id = s1[i + 1].id_spec();
                &&& s1.len() == s0.len() + 1
                &&& forall|j: int| 0 <= j < s1.len() && j != i + 1 ==> s1[j] == split_seq(s0, i, d, id)[j]
                &&& s1[i + 1].equiv(&split_seq(s0, i, d, id)[i + 1])
            },
    ensures
        seq_equiv(s1, after_split(s0, b, split_id(s0, s1, b))),
{
    let idv = split_id(s0, s1, b);
    let u = after_split(s0, b, idv);
    if exists|i: int| inside_item(s0, i, b) {
        let i = choose|i: int| inside_item(s0, i, b);
        assert(split_seq(s0, i, b - start_of(s0, i), idv).len() == s0.len() + 1);
        assert forall|j: int| 0 <= j < s1.len() implies (#[trigger] s1[j]).equiv(&u[j]) by {
            if j != i + 1 {
                assert(s1[j] == u[j]);
                lemma_equiv_refl(s1[j]);
            }
        }
    } else {
        assert forall|j: int| 0 <= j < s1.len() implies (#[trigger] s1[j]).equiv(&u[j]) by {
            lemma_equiv_refl(s1[j]);
        }
    }
}

proof fn lemma_equiv_trans(x: Item, y: Item, z: Item)
    requires
        x.equiv(&y),
        y.equiv(&z),
    ensures
        x.equiv(&z),
{
}

proof fn lemma_equiv_pieces(x: Item, y: Item, d: int, id: Option<String>)
    requires
        x.equiv(&y),
    ensures
        left_piece(x, d).equiv(&left_piece(y, d)),
        right_piece(x, d).with_id(id).equiv(&right_piece(y, d).with_id(id)),
{
}

/// Sequences with the same durations have the same starts.
proof fn lemma_same_starts(a: Seq<Item>, b: Seq<Item>)
    requires
        seq_equiv(a, b),
    ensures
        forall|k: int| 0 <= k <= a.len() ==> #[trigger] start_of(a, k) == start_of(b, k),
        forall|i: int, t: int| #[trigger] inside_item(a, i, t) <==> inside_item(b, i, t),
{
    assert forall|k: int| 0 <= k <= a.len() implies #[trigger] start_of(a, k) == start_of(b, k) by {
        assert forall|j: int| 0 <= j < a.take(k).len() implies a.take(k)[j].dur() == b.take(k)[j].dur() by {
            assert(a[j].equiv(&b[j]));
        }
        lemma_equiv_seq_sum(a.take(k), b.take(k));
    }
    assert forall|i: int, t: int| #[trigger] inside_item(a, i, t) <==> inside_item(b, i, t) by {
        if 0 <= i < a.len() {
            assert(a[i].equiv(&b[i]));
        }
    }
}

/// Copies of a sequence keep the same items after an override.
proof fn lemma_override_tail_equiv(a: Seq<Item>, b: Seq<Item>, idx: int, e: int, id: Option<String>)
    requires
        seq_equiv(a, b),
        0 <= idx <= a.len(),
    ensures
        seq_equiv(override_tail(a, idx, e, id), override_tail(b, idx, e, id)),
{
    lemma_same_starts(a, b);
    let ua = after_split(a, e, id);
    let ub = after_split(b, e, id);
    assert(seq_equiv(ua, ub)) by {
        if exists|i: int| inside_item(a, i, e) {
            let ia = choose|i: int| inside_item(a, i, e);
            assert(inside_item(b, ia, e));
            let ib = choose|i: int| inside_item(b, i, e);
            assert(inside_item(a, ib, e));
            lemma_holds_unique(a, ia, ib, e);
            let d = e - start_of(a, ia);
            assert(d == e - start_of(b, ia));
            lemma_equiv_pieces(a[ia], b[ia], d, id);
            assert forall|j: int| 0 <= j < ua.len() implies (#[trigger] ua[j]).equiv(&ub[j]) by {
                if j < ia {
                    assert(ua[j] == a[j] && ub[j] == b[j]);
                } else if j > ia + 1 {
                    assert(ua[j] == a[j - 1] && ub[j] == b[j - 1]);
                }
            }
        } else {
            assert forall|i: int| !inside_item(b, i, e) by {
                assert(inside_item(a, i, e) <==> inside_item(b, i, e));
            }
        }
    }
    assert forall|j: int| 0 <= j < ua.len() implies ua[j].dur() == ub[j].dur() by {
        assert(ua[j].equiv(&ub[j]));
    }
    lemma_skip_until_same_durs(ua, ub, idx, e - EPS);
    lemma_skip_until_range(ua, idx, e - EPS);
    let k = skip_until(ua, idx, e - EPS);
    assert forall|j: int| 0 <= j < ua.skip(k).len() implies (#[trigger] ua.skip(k)[j]).equiv(&ub.skip(k)[j]) by {
        assert(ua[k + j].equiv(&ub[k + j]));
    }
}

proof fn lemma_equiv_refl(x: Item)
    ensures
        x.equiv(&x),
{
}

/// Sequences that agree up to `equiv` have the same durations, kinds and offsets.
pub open spec fn seq_equiv(a: Seq<Item>, b: Seq<Item>) -> bool {
    a.len() == b.len() && forall|j: int| 0 <= j < a.len() ==> (#[trigger] a[j]).equiv(&b[j])
}

proof fn lemma_equiv_seq_sum(a: Seq<Item>, b: Seq<Item>)
    requires
        a.len() == b.len(),
        forall|j: int| 0 <= j < a.len() ==> a[j].dur() == b[j].dur(),
    ensures
        sum_durs(a) == sum_durs(b),
    decreases a.len(),
{
    if a.len() > 0 {
        lemma_equiv_seq_sum(a.drop_last(), b.drop_last());
    }
}

/// How an inserted item treats the content it overlaps.
#[derive(Debug, PartialEq, Eq, Structural, Clone, Copy)]
pub enum OverlapPolicy {
    /// The inserted item replaces what it overlaps.
    Override,
    /// The rest of the track moves right to make room.
    Push,
}

/// Where an insertion time that falls inside an item lands.
#[derive(Debug, PartialEq, Eq, Structural, Clone, Copy)]
pub enum InsertPolicy {
    /// Split the item at the time and insert between the halves.
    SplitAndInsert,
    /// Insert before the item.
    InsertBefore,
    /// Insert after the item.
    InsertAfter,
    /// Insert at whichever end of the item is closer (the start on a tie).
    InsertBeforeOrAfter,
}

/// Why an edit was refused. `insert_at_time` returns `InvalidTime`; the
/// operations that find an index out of range, an unknown track or a gap
/// where a clip is needed report it as `false` or `None`.
#[derive(Debug, PartialEq, Eq, Structural, Clone, Copy)]
pub enum EditError {
    IndexOutOfRange,
    InvalidTime,
    UnknownTrack,
    NotAClip,
}

/// A clip's media offset can advance by its whole length.
pub open spec fn item_fits(x: Item) -> bool {
    !x.is_gap() ==> x.start() + pos(x.dur()) <= i64::MAX
}

/// The track can take `x` with every sum still in range.
pub open spec fn can_take(s: Seq<Item>, x: Item) -> bool {
    &&& fits(s)
    &&& offsets_fit(s)
    &&& item_fits(x)
    &&& sum_durs(s) + pos(x.dur()) <= i64::MAX
}

/// The index of the item holding `t` (meaningful when one does).
pub open spec fn holder(s: Seq<Item>, t: int) -> int {
    choose|i: int| holds_time(s, i, t)
}

/// Some item holds `t`.
pub open spec fn held(s: Seq<Item>, t: int) -> bool {
    exists|i: int| holds_time(s, i, t)
}

/// `t` is strictly inside an item and the policy splits there.
pub open spec fn splits_at(s: Seq<Item>, t: int, p: InsertPolicy) -> bool {
    p == InsertPolicy::SplitAndInsert && held(s, t) && inside_item(s, holder(s, t), t)
}

/// The index at which an insertion at time `t` lands, before any split.
pub open spec fn snap_index(s: Seq<Item>, t: int, p: InsertPolicy) -> int {
    if !held(s, t) {
        s.len() as int
    } else {
        let i = holder(s, t);
        let st = start_of(s, i);
        let en = st + pos(s[i].dur());
        match p {
            InsertPolicy::InsertBefore => i,
            InsertPolicy::InsertAfter => i + 1,
            InsertPolicy::InsertBeforeOrAfter => if t - st <= en - t { i } else { i + 1 },
            InsertPolicy::SplitAndInsert => if t - st <= EPS { i } else { i + 1 },
        }
    }
}

/// The items that end up before an item inserted at time `t`.
pub open spec fn prefix_before(s: Seq<Item>, t: int, p: InsertPolicy) -> Seq<Item> {
    if splits_at(s, t, p) {
        let i = holder(s, t);
        s.take(i).push(left_piece(s[i], t - start_of(s, i)))
    } else {
        s.take(snap_index(s, t, p))
    }
}

/// The first index from `k` on whose item starts at or after `limit`, or the length.
pub open spec fn skip_until(s: Seq<Item>, k: int, limit: int) -> int
    decreases s.len() - k,
{
    if k >= s.len() || start_of(s, k) >= limit {
        k
    } else {
        skip_until(s, k + 1, limit)
    }
}

/// The sequence after splitting at time `t`, the right piece carrying `id`.
pub open spec fn after_split(s: Seq<Item>, t: int, id: Option<String>) -> Seq<Item> {
    if exists|i: int| inside_item(s, i, t) {
        let i = choose|i: int| inside_item(s, i, t);
        split_seq(s, i, t - start_of(s, i), id)
    } else {
        s
    }
}

/// What an override ending at `b` keeps after the inserted item: once the
/// track is split at `b`, the items from the first one at or after index
/// `idx` that starts no earlier than `b - EPS`.
pub open spec fn override_tail(s: Seq<Item>, idx: int, b: int, id: Option<String>) -> Seq<Item> {
    let u = after_split(s, b, id);
    u.skip(skip_until(u, idx, b - EPS))
}

/// Removal stops between its starting index and the length.
proof fn lemma_skip_until_range(s: Seq<Item>, k: int, limit: int)
    requires
        0 <= k <= s.len(),
    ensures
        k <= skip_until(s, k, limit) <= s.len(),
    decreases s.len() - k,
{
    if k < s.len() && start_of(s, k) < limit {
        lemma_skip_until_range(s, k + 1, limit);
    }
}

/// Sequences with the same durations agree on where removal stops.
proof fn lemma_skip_until_same_durs(a: Seq<Item>, b: Seq<Item>, k: int, limit: int)
    requires
        a.len() == b.len(),
        0 <= k,
        forall|j: int| 0 <= j < a.len() ==> a[j].dur() == b[j].dur(),
    ensures
        skip_until(a, k, limit) == skip_until(b, k, limit),
    decreases a.len() - k,
{
    if k < a.len() {
        lemma_equiv_seq_sum(a.take(k), b.take(k));
        lemma_skip_until_same_durs(a, b, k + 1, limit);
    }
}

/// An index clamped to the length of a sequence.
pub open spec fn clamp_index(s: Seq<Item>, index: usize) -> int {
    if index <= s.len() { index as int } else { s.len() as int }
}

/// The sanitized sequence with `x` placed between `pre` and `post`.
pub open spec fn placed(pre: Seq<Item>, x: Item, post: Seq<Item>) -> Seq<Item> {
    sanitized(pre.push(x) + post)
}

/// The identifier given to the right piece of a split of `s`: twelve
/// lowercase hexadecimal digits that no item of `s` has (when `s` has fewer
/// than `16^12` items, so that a free identifier exists).
pub open spec fn fresh_piece_id(s: Seq<Item>, id: Option<String>) -> bool {
    &&& id is Some
    &&& is_hex_id(id->Some_0@)
    &&& s.len() < pow16(12) ==> id_unused(s, id->Some_0@)
}

/// What inserting `x` at time `t` (not negative) makes of the items `s`.
pub open spec fn inserted(s: Seq<Item>, t: int, x: Item, o: OverlapPolicy, p: InsertPolicy, f: Seq<Item>) -> bool {
    &&& (t > sum_durs(s) ==> exists|g: Item|
            #![trigger s.push(g)]
            g.is_gap() && g.dur() == t - sum_durs(s) && f
                == sanitized(s.push(g).push(x)))
    &&& (0 <= t <= sum_durs(s) && o == OverlapPolicy::Push
            ==> sum_durs(f) == sum_durs(s) + pos(x.dur()))
    &&& (0 <= t <= sum_durs(s) && o == OverlapPolicy::Push
            ==> exists|post: Seq<Item>|
            f == #[trigger] prefix_before(s, t, p).push(
                x,
            ) + post)
    &&& (0 <= t <= sum_durs(s) && o == OverlapPolicy::Push
            && splits_at(s, t, p) ==> exists|id1: Option<String>, post: Seq<Item>|
            #![trigger after_split(s, t, id1), prefix_before(s, t, p).push(x) + post]
            fresh_piece_id(s, id1) && seq_equiv(post, after_split(s, t, id1).skip(holder(s, t) + 1))
                && f == prefix_before(s, t, p).push(x) + post)
    &&& (0 <= t <= sum_durs(s) && o == OverlapPolicy::Push
            && !splits_at(s, t, p) ==> f
            == s.insert(snap_index(s, t, p), x))
    &&& (0 <= t <= sum_durs(s) && o == OverlapPolicy::Override
            ==> is_sanitized(f))
    &&& (0 <= t <= sum_durs(s) && o == OverlapPolicy::Override
            && !splits_at(s, t, p) && x.dur() > EPS
            ==> exists|id: Option<String>, post: Seq<Item>|
            #![trigger override_tail(s, snap_index(s, t, p), start_of(s, snap_index(s, t, p)) + x.dur(), id), placed(s.take(snap_index(s, t, p)), x, post)]
            seq_equiv(
                post,
                override_tail(
                    s,
                    snap_index(s, t, p),
                    start_of(s, snap_index(s, t, p)) + x.dur(),
                    id,
                ),
            ) && f == placed(
                s.take(snap_index(s, t, p)),
                x,
                post,
            ))
    &&& (0 <= t <= sum_durs(s) && o == OverlapPolicy::Override
            && !splits_at(s, t, p) && x.dur() <= EPS
            ==> f == placed(
                s.take(snap_index(s, t, p)),
                x,
                s.skip(snap_index(s, t, p)),
            ))
    &&& (0 <= t <= sum_durs(s) && o == OverlapPolicy::Override
            && splits_at(s, t, p) && x.dur() > EPS
            ==> exists|id1: Option<String>, id2: Option<String>, post: Seq<Item>|
            #![trigger override_tail(after_split(s, t, id1), holder(s, t) + 1, t + x.dur(), id2), placed(prefix_before(s, t, p), x, post)]
            fresh_piece_id(s, id1) && seq_equiv(
                post,
                override_tail(
                    after_split(s, t, id1),
                    holder(s, t) + 1,
                    t + x.dur(),
                    id2,
                ),
            ) && f == placed(
                prefix_before(s, t, p),
                x,
                post,
            ))
    &&& (0 <= t <= sum_durs(s) && o == OverlapPolicy::Override
            ==> exists|post: Seq<Item>|
            f == #[trigger] placed(
                prefix_before(s, t, p),
                x,
                post,
            ))
    &&& (0 <= t <= sum_durs(s) && o == OverlapPolicy::Override && splits_at(s, t, p) && x.dur() <= EPS
        ==> exists|id1: Option<String>, post: Seq<Item>|
            #![trigger after_split(s, t, id1), placed(prefix_before(s, t, p), x, post)]
            fresh_piece_id(s, id1) && seq_equiv(post, after_split(s, t, id1).skip(holder(s, t) + 1))
                && f == placed(prefix_before(s, t, p), x, post))
}

/// What inserting `x` at `index` (clamped to the length) under policy `o`
/// makes of the items `s`.
pub open spec fn index_inserted(s: Seq<Item>, index: usize, x: Item, o: OverlapPolicy, f: Seq<Item>) -> bool {
    let ci = clamp_index(s, index);
    &&& (o == OverlapPolicy::Push ==> f == s.insert(ci, x))
    &&& (o == OverlapPolicy::Override ==> is_sanitized(f))
    &&& (o == OverlapPolicy::Override && x.dur() <= EPS ==> f == placed(s.take(ci), x, s.skip(ci)))
    &&& (o == OverlapPolicy::Override && x.dur() > EPS ==> exists|id: Option<String>, post: Seq<Item>|
        #![trigger override_tail(s, ci, start_of(s, ci) + x.dur(), id), placed(s.take(ci), x, post)]
        seq_equiv(post, override_tail(s, ci, start_of(s, ci) + x.dur(), id)) && f == placed(
            s.take(ci),
            x,
            post,
        ))
}

/// What deleting clip `i` makes of the items `s`: it is removed, or, with
/// `replace_with_gap` and a positive duration, a gap as long takes its place
/// and the result is sanitized.
pub open spec fn deleted(s: Seq<Item>, i: int, replace_with_gap: bool, f: Seq<Item>) -> bool {
    &&& (!(replace_with_gap && s[i].dur() > 0) ==> f == s.remove(i))
    &&& (replace_with_gap && s[i].dur() > 0 ==> exists|g: Item|
        #![trigger s.take(i).push(g)]
        g.is_gap() && g.dur() == s[i].dur() && f == sanitized(s.take(i).push(g) + s.skip(i + 1)))
}

/// The sum of a prefix ending with a left piece is where the split was made.
proof fn lemma_prefix_sum(s: Seq<Item>, i: int, t: int)
    requires
        inside_item(s, i, t),
    ensures
        sum_durs(s.take(i).push(left_piece(s[i], t - start_of(s, i)))) == t,
{
    let l = left_piece(s[i], t - start_of(s, i));
    assert(s.take(i).push(l).drop_last() =~= s.take(i));
}

impl Track {
    /// Appends an item at the end.
    pub fn append(&mut self, item: Item)
        ensures
            final(self).items@ == old(self).items@.push(item),
            final(self).same_header(*old(self)),
    {
        self.items.push(item);
    }

    /// Inserts at an index clamped to the length; later items move right.
    pub fn insert_and_push(&mut self, index: usize, item: Item)
        ensures
            final(self).items@ == old(self).items@.insert(
                clamp_index(old(self).items@, index),
                item,
            ),
            final(self).same_header(*old(self)),
    {
        let idx = if index <= self.items.len() { index } else { self.items.len() };
        self.items.insert(idx, item);
    }

    /// Inserts at an index clamped to the length, replacing what the item
    /// overlaps from the start of that index on; then sanitizes.
    pub fn insert_and_override(&mut self, index: usize, item: Item)
        requires
            can_take(old(self).items@, item),
        ensures
            is_sanitized(final(self).items@),
            final(self).fits(),
            final(self).same_header(*old(self)),
            exists|post: Seq<Item>|
                final(self).items@ == #[trigger] placed(
                    old(self).items@.take(
                        clamp_index(old(self).items@, index),
                    ),
                    item,
                    post,
                ),
            item.dur() <= EPS ==> final(self).items@ == placed(
                old(self).items@.take(clamp_index(old(self).items@, index)),
                item,
                old(self).items@.skip(clamp_index(old(self).items@, index)),
            ),
            item.dur() > EPS ==> exists|id: Option<String>, post: Seq<Item>|
                #![trigger override_tail(old(self).items@, clamp_index(old(self).items@, index), start_of(old(self).items@, clamp_index(old(self).items@, index)) + item.dur(), id), placed(old(self).items@.take(clamp_index(old(self).items@, index)), item, post)]
                seq_equiv(
                    post,
                    override_tail(
                        old(self).items@,
                        clamp_index(old(self).items@, index),
                        start_of(old(self).items@, clamp_index(old(self).items@, index)) + item.dur(),
                        id,
                    ),
                ) && final(self).items@ == placed(
                    old(self).items@.take(clamp_index(old(self).items@, index)),
                    item,
                    post,
                ),
    {
        let ghost s0 = self.items@;
        let idx = if index <= self.items.len() { index } else { self.items.len() };
        proof {
            assert(idx == clamp_index(s0, index));
            crate::timing::lemma_sum_take_mono(s0, idx as int, s0.len() as int);
            crate::timing::lemma_sum_nonneg(s0.take(idx as int));
        }
        let a = self.start_time_of_item(idx);
        let dd = item.duration();
        if dd <= EPS {
            self.items.insert(idx, item);
            proof {
                assert(self.items@ =~= s0.take(idx as int).push(item) + s0.skip(idx as int));
                lemma_insert_fits(s0, idx as int, item);
            }
            self.sanitize();
            proof {
                lemma_sanitized_fits(s0.take(idx as int).push(item) + s0.skip(idx as int));
                assert(self.items@ == placed(s0.take(idx as int), item, s0.skip(idx as int)));
            }
            return;
        }
        let b = a + dd;
        // `a` is where item `idx` starts, a boundary: only the end needs a split.
        self.split_at_time(b);
        let ghost s1 = self.items@;
        proof {
            assert(start_of(s0, idx as int) <= b);
            assert(s1.take(idx as int) == s0.take(idx as int));
        }
        let limit = b - EPS;
        let k = self.remove_from_until(idx, a, limit);
        proof {
            lemma_split_tail(s0, s1, b as int, idx as int, k@);
        }
        self.items.insert(idx, item);
        proof {
            let k = k@;
            let post = s1.skip(k);
            assert(self.items@ =~= s0.take(idx as int).push(item) + post);
            lemma_cut_fits(s1, idx as int, k, item);
        }
        self.sanitize();
        proof {
            lemma_sanitized_fits(s0.take(idx as int).push(item) + s1.skip(k@));
            assert(self.items@ == placed(s0.take(idx as int), item, s1.skip(k@)));
        }
    }
}

impl Track {
    /// Removes the items from `idx` on that start before `limit`, given
    /// that item `idx` starts at `a`. Returns how far the removal reached.
    fn remove_from_until(&mut self, idx: usize, a: Nanos, limit: Nanos) -> (k: Ghost<int>)
        requires
            idx <= old(self).items@.len(),
            fits(old(self).items@),
            a == start_of(old(self).items@, idx as int),
        ensures
            idx <= k@ <= old(self).items@.len(),
            final(self).items@ == old(self).items@.take(idx as int) + old(self).items@.skip(k@),
            k@ < old(self).items@.len() ==> start_of(old(self).items@, k@) >= limit,
            k@ == skip_until(old(self).items@, idx as int, limit as int),
            final(self).same_header(*old(self)),
    {
        let ghost s1 = self.items@;
        let mut p: Nanos = a;
        let ghost mut k: int = idx as int;
        proof {
            assert(self.items@ =~= s1.take(idx as int) + s1.skip(idx as int));
        }
        while idx < self.items.len() && p < limit
            invariant
                idx <= k <= s1.len(),
                fits(s1),
                self.items@ == s1.take(idx as int) + s1.skip(k),
                p == start_of(s1, k),
                skip_until(s1, idx as int, limit as int) == skip_until(s1, k, limit as int),
                self.same_header(*old(self)),
            decreases self.items@.len() - idx,
        {
            proof {
                assert(self.items@[idx as int] == s1[k]);
                lemma_sum_take_next(s1, k);
                lemma_sum_take_mono(s1, k + 1, s1.len() as int);
            }
            p = p + clamp_nonneg(self.items[idx].duration());
            self.items.remove(idx);
            proof {
                assert(self.items@ =~= s1.take(idx as int) + s1.skip(k + 1));
                k = k + 1;
            }
        }
        Ghost(k)
    }
}

impl Track {
    /// Inserts at an index clamped to the length, under the overlap policy.
    pub fn insert_at_index(&mut self, index: usize, item: Item, overlap_policy: OverlapPolicy)
        requires
            can_take(old(self).items@, item),
        ensures
            index_inserted(old(self).items@, index, item, overlap_policy, final(self).items@),
            final(self).fits(),
            final(self).same_header(*old(self)),
            overlap_policy == OverlapPolicy::Push ==> final(self).items@ == old(self).items@.insert(
                clamp_index(old(self).items@, index),
                item,
            ),
            overlap_policy == OverlapPolicy::Override ==> is_sanitized(final(self).items@),
            overlap_policy == OverlapPolicy::Override ==> exists|post: Seq<Item>|
                final(self).items@ == #[trigger] placed(
                    old(self).items@.take(clamp_index(old(self).items@, index)),
                    item,
                    post,
                ),
            overlap_policy == OverlapPolicy::Override && item.dur() <= EPS ==> final(self).items@ == placed(
                old(self).items@.take(clamp_index(old(self).items@, index)),
                item,
                old(self).items@.skip(clamp_index(old(self).items@, index)),
            ),
            overlap_policy == OverlapPolicy::Override && item.dur() > EPS ==> exists|id: Option<String>, post: Seq<Item>|
                #![trigger override_tail(old(self).items@, clamp_index(old(self).items@, index), start_of(old(self).items@, clamp_index(old(self).items@, index)) + item.dur(), id), placed(old(self).items@.take(clamp_index(old(self).items@, index)), item, post)]
                seq_equiv(
                    post,
                    override_tail(
                        old(self).items@,
                        clamp_index(old(self).items@, index),
                        start_of(old(self).items@, clamp_index(old(self).items@, index)) + item.dur(),
                        id,
                    ),
                ) && final(self).items@ == placed(
                    old(self).items@.take(clamp_index(old(self).items@, index)),
                    item,
                    post,
                ),
    {
        let ghost s = self.items@;
        if overlap_policy == OverlapPolicy::Push {
            self.insert_and_push(index, item);
            proof {
                let i = clamp_index(s, index);
                assert(s.insert(i, item) =~= s.take(i).push(item) + s.skip(i));
                lemma_insert_fits(s, i, item);
            }
            return;
        }
        self.insert_and_override(index, item);
    }

    /// The index an insertion at time `t` lands on, before any split.
    fn get_insertion_index(&self, t: Nanos, policy: InsertPolicy) -> (r: usize)
        requires
            fits(self.items@),
        ensures
            r == snap_index(self.items@, t as int, policy),
            r <= self.items@.len(),
    {
        let ghost s = self.items@;
        match self.get_item_at_time(t) {
            None => {
                self.items.len()
            },
            Some(i) => {
                proof {
                    let h = holder(s, t as int);
                    assert(holds_time(s, h, t as int));
                    lemma_holds_unique(s, i as int, h, t as int);
                    lemma_item_le_sum(s, i as int);
                }
                assert(i < self.items.len());
                let st = self.start_time_of_item(i);
                let en = st + clamp_nonneg(self.items[i].duration());
                match policy {
                    InsertPolicy::InsertBefore => i,
                    InsertPolicy::InsertAfter => i + 1,
                    InsertPolicy::InsertBeforeOrAfter => {
                        if t - st <= en - t {
                            i
                        } else {
                            i + 1
                        }
                    },
                    InsertPolicy::SplitAndInsert => {
                        if t - st <= EPS {
                            i
                        } else {
                            i + 1
                        }
                    },
                }
            },
        }
    }

    /// Inserts `item` at time `t`. Past the end, a gap fills the space first.
    /// Inside an item, the insert policy decides where the item lands.
    pub fn insert_at_time(
        &mut self,
        t: Nanos,
        item: Item,
        overlap_policy: OverlapPolicy,
        insert_policy: InsertPolicy,
    ) -> (r: Result<(), EditError>)
        requires
            old(self).fits(),
            can_take(old(self).items@, item),
            t > sum_durs(old(self).items@) ==> t + pos(item.dur()) <= i64::MAX,
        ensures
            final(self).fits(),
            final(self).same_header(*old(self)),
            (t < 0) <==> r is Err,
            r is Err ==> r == Err::<(), EditError>(EditError::InvalidTime) && *final(self) == *old(self),
            r is Ok ==> inserted(old(self).items@, t as int, item, overlap_policy, insert_policy, final(self).items@),
    {
        let ghost s = self.items@;
        proof {
            crate::timing::lemma_sum_nonneg(s);
        }
        if t < 0 {
            return Err(EditError::InvalidTime);
        }
        let total = self.total_duration();
        if t > total {
            let gap = Item::Gap(Gap::make_gap(t - total));
            self.items.push(gap);
            self.items.push(item);
            proof {
                let u = s.push(gap).push(item);
                assert(u.drop_last() == s.push(gap));
                assert(s.push(gap).drop_last() == s);
                assert(sum_durs(s.push(gap)) == sum_durs(s) + pos(gap.dur()));
                assert(sum_durs(u) == sum_durs(s.push(gap)) + pos(item.dur()));
                assert forall|j: int| 0 <= j < u.len() && !(#[trigger] u[j]).is_gap() implies u[j].start()
                    + pos(u[j].dur()) <= i64::MAX by {
                    if j < s.len() {
                        assert(u[j] == s[j]);
                    }
                }
                lemma_sanitized_fits(u);
            }
            self.sanitize();
            return Ok(());
        }
        let idx = self.get_insertion_index(t, insert_policy);
        proof {
            if held(s, t as int) {
                lemma_item_le_sum(s, holder(s, t as int));
            }
        }
        if insert_policy == InsertPolicy::SplitAndInsert {
            self.split_at_time(t);
        }
        let ghost s1 = self.items@;
        proof {
            if splits_at(s, t as int, insert_policy) {
                let i = holder(s, t as int);
                let pre = s.take(i).push(left_piece(s[i], t - start_of(s, i)));
                assert(idx == i + 1);
                assert forall|j: int| 0 <= j < i + 1 implies s1[j] == pre[j] by {
                    assert(s1[j] == split_seq(s, i, t - start_of(s, i), s1[i + 1].id_spec())[j]);
                }
                assert(s1.take(i + 1) =~= pre);
            } else {
                if insert_policy == InsertPolicy::SplitAndInsert {
                    assert forall|i: int| !inside_item(s, i, t as int) by {
                        if inside_item(s, i, t as int) {
                            lemma_holds_unique(s, i, holder(s, t as int), t as int);
                        }
                    }
                }
                assert(s1 == s);
            }
            assert(s1.take(idx as int) == prefix_before(s, t as int, insert_policy));
            assert(clamp_index(s1, idx) == idx);
        }
        self.insert_at_index(idx, item, overlap_policy);
        proof {
            if overlap_policy == OverlapPolicy::Push {
                let post = s1.skip(idx as int);
                assert(self.items@ =~= s1.take(idx as int).push(item) + post);
                lemma_insert_fits(s1, idx as int, item);
                assert(self.items@ == prefix_before(s, t as int, insert_policy).push(item) + post);
                if splits_at(s, t as int, insert_policy) {
                    lemma_split_equiv(s, s1, t as int);
                    let id1 = split_id(s, s1, t as int);
                assert(fresh_piece_id(s, id1));
                    let base = after_split(s, t as int, id1);
                    assert forall|j: int| 0 <= j < post.len() implies (#[trigger] post[j]).equiv(&base.skip(idx as int)[j]) by {
                        assert(s1[idx + j].equiv(&base[idx + j]));
                    }
                    assert(seq_equiv(post, base.skip(idx as int)));
                }
            }
            if overlap_policy == OverlapPolicy::Override && splits_at(s, t as int, insert_policy)
                && item.dur() <= EPS {
                lemma_split_equiv(s, s1, t as int);
                let id1 = split_id(s, s1, t as int);
                assert(fresh_piece_id(s, id1));
                let base = after_split(s, t as int, id1);
                let post = s1.skip(idx as int);
                assert forall|j: int| 0 <= j < post.len() implies (#[trigger] post[j]).equiv(&base.skip(idx as int)[j]) by {
                    assert(s1[idx + j].equiv(&base[idx + j]));
                }
                assert(seq_equiv(post, base.skip(idx as int)));
                assert(self.items@ == placed(prefix_before(s, t as int, insert_policy), item, post));
            }
            if overlap_policy == OverlapPolicy::Override && splits_at(s, t as int, insert_policy)
                && item.dur() > EPS {
                let i = holder(s, t as int);
                lemma_split_equiv(s, s1, t as int);
                let id1 = split_id(s, s1, t as int);
                assert(fresh_piece_id(s, id1));
                let base = after_split(s, t as int, id1);
                lemma_prefix_sum(s, i, t as int);
                assert(start_of(s1, idx as int) == t);
                let e = t + item.dur();
                let (id2, post) = choose|id2: Option<String>, post: Seq<Item>|
                    seq_equiv(post, override_tail(s1, idx as int, e, id2)) && self.items@ == placed(
                        s1.take(idx as int),
                        item,
                        post,
                    );
                lemma_override_tail_equiv(s1, base, idx as int, e, id2);
                let want = override_tail(base, idx as int, e, id2);
                assert forall|j: int| 0 <= j < post.len() implies (#[trigger] post[j]).equiv(&want[j]) by {
                    lemma_equiv_trans(post[j], override_tail(s1, idx as int, e, id2)[j], want[j]);
                }
                assert(seq_equiv(post, want));
                assert(self.items@ == placed(prefix_before(s, t as int, insert_policy), item, post));
            }
        }
        Ok(())
    }
}

/// What `resize_item` sets the duration to: the requested duration, clamped
/// at zero and, on request, to the media that remains after the clip's offset.
pub open spec fn resized_duration(it: Item, d: i64, clamp_to_media: bool) -> int {
    let e = pos(d);
    match it {
        Item::Clip(c) => {
            let key = match c.active_media_reference_key {
                Some(k) => k@,
                None => "DEFAULT_MEDIA"@,
            };
            if clamp_to_media && has_key(c.media_references@, key) {
                let j = choose|j: int|
                    0 <= j < c.media_references@.len() && c.media_references@[j].0@ == key
                        && forall|m: int| 0 <= m < j ==> c.media_references@[m].0@ != key;
                match c.media_references@[j].1.available_range {
                    Some(ar) => {
                        let rem = if ar.duration.value - c.source_range.start_time.value > 0 {
                            ar.duration.value - c.source_range.start_time.value
                        } else {
                            0
                        };
                        if rem < e { rem } else { e }
                    },
                    None => e,
                }
            } else {
                e
            }
        },
        Item::Gap(_) => e,
    }
}

/// The media that remains of `r` after `start`, at least zero.
fn remaining_media(r: &MediaReference, start: Nanos, e: Nanos) -> (out: Nanos)
    requires
        e >= 0,
    ensures
        out == (match r.available_range {
            Some(ar) => {
                let rem = if ar.duration.value - start > 0 { ar.duration.value - start } else { 0 };
                if rem < e { rem } else { e as int }
            },
            None => e as int,
        }),
{
    match &r.available_range {
        Some(ar) => {
            let diff: i128 = (ar.duration.value as i128) - (start as i128);
            let rem: i128 = if diff > 0 { diff } else { 0 };
            if rem < (e as i128) { rem as i64 } else { e }
        },
        None => e,
    }
}

impl Track {
    /// Replaces the item at `index`; false when the index is out of range.
    pub fn replace_item_by_index(&mut self, index: usize, item: Item) -> (r: bool)
        ensures
            r == (index < old(self).items@.len()),
            r ==> final(self).items@ == old(self).items@.update(index as int, item),
            !r ==> *final(self) == *old(self),
            final(self).same_header(*old(self)),
    {
        if index >= self.items.len() {
            return false;
        }
        self.items.set(index, item);
        true
    }

    /// Deletes the clip at `index`; gaps are refused. With `replace_with_gap`,
    /// a gap as long as the clip takes its place and the track is sanitized.
    pub fn delete_clip(&mut self, index: usize, replace_with_gap: bool) -> (r: bool)
        requires
            old(self).fits(),
        ensures
            final(self).fits(),
            final(self).same_header(*old(self)),
            r == (index < old(self).items@.len() && !old(self).items@[index as int].is_gap()),
            !r ==> *final(self) == *old(self),
            r ==> deleted(old(self).items@, index as int, replace_with_gap, final(self).items@),
            sum_durs(final(self).items@) <= sum_durs(old(self).items@),
            r && !(replace_with_gap && old(self).items@[index as int].dur() > 0)
                ==> final(self).items@ == old(self).items@.remove(index as int),
            r && replace_with_gap && old(self).items@[index as int].dur() > 0 ==> exists|g: Item|
                #![trigger old(self).items@.take(index as int).push(g)]
                g.is_gap() && g.dur() == old(self).items@[index as int].dur() && final(self).items@
                    == sanitized(
                    old(self).items@.take(index as int).push(g) + old(self).items@.skip(index + 1),
                ),
            gap_count(final(self).items@) <= gap_count(old(self).items@) + 1,
    {
        let ghost s = self.items@;
        if index >= self.items.len() {
            return false;
        }
        if self.items[index].is_gap_item() {
            return false;
        }
        let removed = clamp_nonneg(self.items[index].duration());
        let _clip = self.items.remove(index);
        proof {
            assert(self.items@ =~= s.take(index as int) + s.skip(index + 1));
            lemma_sum_remove(s, index as int);
        }
        if replace_with_gap && removed > 0 {
            let gap = Item::Gap(Gap::make_gap(removed));
            self.items.insert(index, gap);
            proof {
                assert(self.items@ =~= s.take(index as int).push(gap) + s.skip(index + 1));
                lemma_sum_replace(s, index as int, gap);
                lemma_sanitized_fits(self.items@);
                lemma_replace_gap_count(s, index as int, gap);
                crate::sanitize::lemma_sanitize_gap_count(self.items@);
            }
            self.sanitize();
        } else {
            proof {
                lemma_replace_gap_count(s, index as int, s[index as int]);
                assert(s.take(index as int).push(s[index as int]) + s.skip(index + 1) =~= s);
                crate::sanitize::lemma_gap_count_concat(s.take(index as int), s.skip(index + 1));
                assert(s.take(index as int).push(s[index as int]).drop_last() =~= s.take(index as int));
                crate::sanitize::lemma_gap_count_concat(s.take(index as int).push(s[index as int]), s.skip(index + 1));
            }
        }
        true
    }

    /// Moves item `item_index` to `new_start` with a new duration: it is taken
    /// out and inserted again by splitting at `new_start`. False, with nothing
    /// changed, when the index is out of range or the time is negative.
    pub fn resize_item(
        &mut self,
        item_index: usize,
        new_start: Nanos,
        new_duration: Nanos,
        overlap_policy: OverlapPolicy,
        clamp_to_media: bool,
    ) -> (r: bool)
        requires
            old(self).fits(),
            sum_durs(old(self).items@) + pos(new_duration) <= i64::MAX,
            new_start + pos(new_duration) <= i64::MAX,
            item_index < old(self).items@.len() ==> item_fits(
                old(self).items@[item_index as int].with_dur(new_duration),
            ),
        ensures
            final(self).fits(),
            final(self).same_header(*old(self)),
            r == (item_index < old(self).items@.len() && new_start >= 0),
            !r ==> *final(self) == *old(self),
            r ==> is_sanitized(final(self).items@),
            r ==> exists|mid: Seq<Item>|
                #[trigger] inserted(
                    old(self).items@.remove(item_index as int),
                    new_start as int,
                    old(self).items@[item_index as int].with_dur(
                        resized_duration(old(self).items@[item_index as int], new_duration, clamp_to_media) as i64,
                    ),
                    overlap_policy,
                    InsertPolicy::SplitAndInsert,
                    mid,
                ) && final(self).items@ == sanitized(mid),
            r ==> ({
                let rest = old(self).items@.remove(item_index as int);
                let moved = old(self).items@[item_index as int].with_dur(
                    resized_duration(old(self).items@[item_index as int], new_duration, clamp_to_media) as i64,
                );
                new_start <= sum_durs(rest) ==> exists|post: Seq<Item>|
                    final(self).items@ == #[trigger] sanitized(
                        prefix_before(rest, new_start as int, InsertPolicy::SplitAndInsert).push(moved)
                            + post,
                    )
            }),
    {
        let ghost s = self.items@;
        if item_index >= self.items.len() || new_start < 0 {
            return false;
        }
        let mut item = self.items.remove(item_index);
        let ghost rest = self.items@;
        proof {
            assert(rest =~= s.remove(item_index as int));
            assert(rest =~= s.take(item_index as int) + s.skip(item_index + 1));
            lemma_sum_remove(s, item_index as int);
        }
        let mut effective = clamp_nonneg(new_duration);
        if clamp_to_media {
            if let Item::Clip(c) = &item {
                let key = match &c.active_media_reference_key {
                    Some(k) => k.clone(),
                    None => crate::model::default_media_key(),
                };
                match find_reference(&c.media_references, key.as_str()) {
                    Some(j) => {
                        effective = remaining_media(
                            &c.media_references[j].1,
                            c.source_range.start_time.value,
                            effective,
                        );
                        proof {
                            let refs = c.media_references@;
                            let jj = choose|jj: int|
                                0 <= jj < refs.len() && refs[jj].0@ == key@
                                    && forall|m: int| 0 <= m < jj ==> refs[m].0@ != key@;
                            assert(0 <= jj < refs.len() && refs[jj].0@ == key@
                                    && forall|m: int| 0 <= m < jj ==> refs[m].0@ != key@);
                            assert(jj == j);
                        }
                    },
                    None => {},
                }
            }
        }
        let ghost moved = s[item_index as int].with_dur(effective);
        proof {
            assert(effective == resized_duration(s[item_index as int], new_duration, clamp_to_media));
            assert(0 <= effective <= pos(new_duration));
        }
        item.set_duration(effective);
        assert(item == moved);
        let res = self.insert_at_time(new_start, item, overlap_policy, InsertPolicy::SplitAndInsert);
        let ghost mid = self.items@;
        proof {
            if new_start <= sum_durs(rest) && overlap_policy == OverlapPolicy::Override {
                let pre = prefix_before(rest, new_start as int, InsertPolicy::SplitAndInsert);
                let post = choose|post: Seq<Item>| mid == #[trigger] placed(pre, moved, post);
                assert(mid == placed(pre, moved, post));
                assert(is_sanitized(mid));
                crate::sanitize::lemma_sanitized_fixed_pub(mid);
                assert(sanitized(mid) == mid);
                assert(mid == sanitized(pre.push(moved) + post));
            }
        }
        self.sanitize();
        proof {
            lemma_sanitized_fits(mid);
            assert(inserted(rest, new_start as int, moved, overlap_policy, InsertPolicy::SplitAndInsert, mid));
        }
        true
    }
}

/// Removing an item takes its clamped duration off the sum.
pub proof fn lemma_sum_remove(s: Seq<Item>, i: int)
    requires
        0 <= i < s.len(),
        fits(s),
        offsets_fit(s),
    ensures
        sum_durs(s.take(i) + s.skip(i + 1)) + pos(s[i].dur()) == sum_durs(s),
        fits(s.take(i) + s.skip(i + 1)),
        offsets_fit(s.take(i) + s.skip(i + 1)),
{
    let u = s.take(i) + s.skip(i + 1);
    lemma_sum_concat(s.take(i), s.skip(i + 1));
    assert(s =~= s.take(i) + seq![s[i]] + s.skip(i + 1));
    assert(seq![s[i]].drop_last() =~= Seq::<Item>::empty());
    assert(seq![s[i]].last() == s[i]);
    assert(sum_durs(Seq::<Item>::empty()) == 0);
    lemma_sum3(s.take(i), seq![s[i]], s.skip(i + 1));
    assert forall|j: int| 0 <= j < u.len() && !(#[trigger] u[j]).is_gap() implies u[j].start()
        + pos(u[j].dur()) <= i64::MAX by {
        if j < i {
            assert(u[j] == s[j]);
        } else {
            assert(u[j] == s[j + 1]);
        }
    }
}

/// Replacing an item by a gap of the same clamped duration keeps the sum.
proof fn lemma_sum_replace(s: Seq<Item>, i: int, g: Item)
    requires
        0 <= i < s.len(),
        fits(s),
        offsets_fit(s),
        g.is_gap(),
        pos(g.dur()) == pos(s[i].dur()),
    ensures
        sum_durs(s.take(i).push(g) + s.skip(i + 1)) == sum_durs(s),
        fits(s.take(i).push(g) + s.skip(i + 1)),
        offsets_fit(s.take(i).push(g) + s.skip(i + 1)),
{
    let u = s.take(i).push(g) + s.skip(i + 1);
    assert(u =~= s.take(i) + seq![g] + s.skip(i + 1));
    assert(seq![g].drop_last() =~= Seq::<Item>::empty());
    assert(seq![g].last() == g);
    assert(sum_durs(Seq::<Item>::empty()) == 0);
    assert(sum_durs(seq![g]) == pos(g.dur()));
    lemma_sum3(s.take(i), seq![g], s.skip(i + 1));
    lemma_sum_remove(s, i);
    lemma_sum_concat(s.take(i), s.skip(i + 1));
    assert forall|j: int| 0 <= j < u.len() && !(#[trigger] u[j]).is_gap() implies u[j].start()
        + pos(u[j].dur()) <= i64::MAX by {
        if j < i {
            assert(u[j] == s[j]);
        } else if j > i {
            assert(u[j] == s[j]);
        }
    }
}

/// Putting `g` in place of item `i` changes the gap count by the difference.
proof fn lemma_replace_gap_count(s: Seq<Item>, i: int, g: Item)
    requires
        0 <= i < s.len(),
    ensures
        gap_count(s.take(i).push(g) + s.skip(i + 1)) + (if s[i].is_gap() { 1nat } else { 0nat })
            == gap_count(s) + (if g.is_gap() { 1nat } else { 0nat }),
{
    crate::sanitize::lemma_gap_count_concat(s.take(i).push(g), s.skip(i + 1));
    assert(s.take(i).push(g).drop_last() =~= s.take(i));
    assert(s =~= s.take(i).push(s[i]) + s.skip(i + 1));
    crate::sanitize::lemma_gap_count_concat(s.take(i).push(s[i]), s.skip(i + 1));
    assert(s.take(i).push(s[i]).drop_last() =~= s.take(i));
}

/// Inserting an item the track can take keeps every sum in range.
proof fn lemma_insert_fits(s: Seq<Item>, i: int, x: Item)
    requires
        can_take(s, x),
        0 <= i <= s.len(),
    ensures
        fits(s.take(i).push(x) + s.skip(i)),
        offsets_fit(s.take(i).push(x) + s.skip(i)),
        sum_durs(s.take(i).push(x) + s.skip(i)) == sum_durs(s) + pos(x.dur()),
{
    lemma_cut_fits(s, i, i, x);
    assert(s.take(i) + s.skip(i) =~= s);
    lemma_sum_concat(s.take(i), s.skip(i));
}

/// Keeping a prefix and a suffix around a new item keeps every sum in range.
proof fn lemma_cut_fits(s: Seq<Item>, i: int, k: int, x: Item)
    requires
        fits(s),
        offsets_fit(s),
        item_fits(x),
        sum_durs(s) + pos(x.dur()) <= i64::MAX,
        0 <= i <= k <= s.len(),
    ensures
        fits(s.take(i).push(x) + s.skip(k)),
        offsets_fit(s.take(i).push(x) + s.skip(k)),
        sum_durs(s.take(i).push(x) + s.skip(k)) == sum_durs(s.take(i)) + pos(x.dur()) + sum_durs(
            s.skip(k),
        ),
{
    let u = s.take(i).push(x) + s.skip(k);
    lemma_sum_concat(s.take(i).push(x), s.skip(k));
    assert(s.take(i).push(x).drop_last() =~= s.take(i));
    lemma_sum_concat(s.take(k), s.skip(k));
    assert(s.take(k) + s.skip(k) =~= s);
    lemma_sum_take_mono(s, i, k);
    assert forall|j: int| 0 <= j < u.len() && !(#[trigger] u[j]).is_gap() implies u[j].start()
        + pos(u[j].dur()) <= i64::MAX by {
        if j < i {
            assert(u[j] == s[j]);
        } else if j > i {
            assert(u[j] == s[k + (j - i - 1)]);
        }
    }
}

/// Clamping keeps clip offsets in range.
proof fn lemma_clamp_offsets(s: Seq<Item>)
    requires
        offsets_fit(s),
    ensures
        offsets_fit(crate::sanitize::clamp_all(s)),
{
    let c = crate::sanitize::clamp_all(s);
    assert forall|j: int| 0 <= j < c.len() && !(#[trigger] c[j]).is_gap() implies c[j].start()
        + pos(c[j].dur()) <= i64::MAX by {
        assert(!s[j].is_gap());
    }
}

/// Dropping items keeps clip offsets in range.
proof fn lemma_positive_offsets(s: Seq<Item>)
    requires
        offsets_fit(s),
    ensures
        offsets_fit(crate::sanitize::positive_only(s)),
    decreases s.len(),
{
    if s.len() > 0 {
        assert(offsets_fit(s.drop_last()));
        lemma_positive_offsets(s.drop_last());
    }
}

/// Merging gaps leaves clips as they are.
proof fn lemma_merge_offsets(s: Seq<Item>)
    requires
        offsets_fit(s),
    ensures
        offsets_fit(crate::sanitize::merge_gaps(s)),
    decreases s.len(),
{
    if s.len() > 0 {
        assert(offsets_fit(s.drop_last()));
        lemma_merge_offsets(s.drop_last());
    }
}

/// Sanitizing keeps every sum in range.
pub proof fn lemma_sanitized_fits(s: Seq<Item>)
    requires
        fits(s),
        offsets_fit(s),
    ensures
        fits(sanitized(s)),
        offsets_fit(sanitized(s)),
{
    lemma_sanitized_shape(s);
    lemma_clamp_offsets(s);
    lemma_positive_offsets(crate::sanitize::clamp_all(s));
    lemma_merge_offsets(crate::sanitize::positive_only(crate::sanitize::clamp_all(s)));
}

} // verus!
