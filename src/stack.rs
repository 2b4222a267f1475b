//! Cross-track lookups and moves, by identifier, over the tracks of a stack.
use vstd::prelude::*;

use crate::edit::{can_take, deleted, index_inserted, inserted, item_fits, snap_index, splits_at, InsertPolicy, OverlapPolicy};
use crate::json::empty_object;
use crate::model::Item;
use crate::time::{pos, Nanos};
use crate::sanitize::gap_count;
use crate::timing::{fits, sum_durs};
use crate::track::{default_stack_schema, default_timeline_schema, track_has_id, IdMetadataExt, Stack, Timeline, Track};

verus! {

/// The number of clips in a sequence of items.
pub open spec fn clip_count(s: Seq<Item>) -> nat
    decreases s.len(),
{
    if s.len() == 0 {
        0
    } else {
        clip_count(s.drop_last()) + if s.last().is_gap() { 0nat } else { 1nat }
    }
}

/// The number of clips over all tracks.
pub open spec fn stack_clip_count(ts: Seq<Track>) -> nat
    decreases ts.len(),
{
    if ts.len() == 0 {
        0
    } else {
        stack_clip_count(ts.drop_last()) + clip_count(ts.last().items@)
    }
}

/// Every track keeps its sums in range.
pub open spec fn all_fit(ts: Seq<Track>) -> bool {
    forall|i: int| 0 <= i < ts.len() ==> (#[trigger] ts[i]).fits()
}

/// Any item of the stack can be added to any track, at any time up to `t`,
/// with every sum still in range.
pub open spec fn room_for_moves(ts: Seq<Track>, t: int) -> bool {
    forall|a: int, b: int, c: int|
        #![trigger ts[a], ts[b].items@[c]]
        0 <= a < ts.len() && 0 <= b < ts.len() && 0 <= c < ts[b].items@.len() ==> {
            let x = ts[b].items@[c];
            &&& sum_durs(ts[a].items@) + pos(x.dur()) <= i64::MAX
            &&& t + pos(x.dur()) <= i64::MAX
            &&& item_fits(x)
        }
}

/// Track `i` is the first whose identifier is `id`.
pub open spec fn first_track_with_id(ts: Seq<Track>, i: int, id: Seq<char>) -> bool {
    &&& 0 <= i < ts.len()
    &&& ts[i].id_view() == Some(id)
    &&& forall|j: int| 0 <= j < i ==> (#[trigger] ts[j]).id_view() != Some(id)
}

/// Track `i` is the first that holds an item with identifier `id`.
pub open spec fn first_holder(ts: Seq<Track>, i: int, id: Seq<char>) -> bool {
    &&& 0 <= i < ts.len()
    &&& exists|k: int| 0 <= k < ts[i].items@.len() && (#[trigger] ts[i].items@[k]).id_view() == Some(id)
    &&& forall|j: int, k: int|
        0 <= j < i && 0 <= k < ts[j].items@.len() ==> (#[trigger] ts[j].items@[k]).id_view() != Some(id)
}

/// Item `k` of track `i` is the first item of that track with identifier `id`.
pub open spec fn first_in_track(ts: Seq<Track>, i: int, k: int, id: Seq<char>) -> bool {
    &&& 0 <= k < ts[i].items@.len()
    &&& ts[i].items@[k].id_view() == Some(id)
    &&& forall|m: int| 0 <= m < k ==> (#[trigger] ts[i].items@[m]).id_view() != Some(id)
}

/// Moving item `ii` of track `si` to time `t` of track `d`: the source track
/// is what deleting the item makes of it, and the destination (as it stands
/// after the deletion) is what inserting a copy `x` of the item makes of it.
pub open spec fn moved_at_time(
    ts: Seq<Track>,
    si: int,
    ii: int,
    d: int,
    replace_with_gap: bool,
    t: int,
    o: OverlapPolicy,
    p: InsertPolicy,
    fs: Seq<Track>,
) -> bool {
    exists|x: Item, mid: Seq<Item>|
        #![trigger deleted(ts[si].items@, ii, replace_with_gap, mid), x.equiv(&ts[si].items@[ii])]
        x.equiv(&ts[si].items@[ii]) && deleted(ts[si].items@, ii, replace_with_gap, mid) && (d != si
            ==> fs[si].items@ == mid && inserted(ts[d].items@, t, x, o, p, fs[d].items@)) && (d == si
            ==> inserted(mid, t, x, o, p, fs[d].items@))
}

/// Moving item `ii` of track `si` to index `index` of track `d`, as above.
pub open spec fn moved_at_index(
    ts: Seq<Track>,
    si: int,
    ii: int,
    d: int,
    replace_with_gap: bool,
    index: usize,
    o: OverlapPolicy,
    fs: Seq<Track>,
) -> bool {
    exists|x: Item, mid: Seq<Item>|
        #![trigger deleted(ts[si].items@, ii, replace_with_gap, mid), x.equiv(&ts[si].items@[ii])]
        x.equiv(&ts[si].items@[ii]) && deleted(ts[si].items@, ii, replace_with_gap, mid) && (d != si
            ==> fs[si].items@ == mid && index_inserted(ts[d].items@, index, x, o, fs[d].items@)) && (d
            == si ==> index_inserted(mid, index, x, o, fs[d].items@))
}

/// Only tracks `si` and `d` change, and only in their items.
pub open spec fn moved_frame(ts: Seq<Track>, si: int, d: int, fs: Seq<Track>) -> bool {
    &&& fs.len() == ts.len()
    &&& fs[si].same_header(ts[si])
    &&& fs[d].same_header(ts[d])
    &&& forall|j: int| 0 <= j < ts.len() && j != si && j != d ==> #[trigger] fs[j] == ts[j]
}

/// Replacing one track changes the clip count of the stack by the difference.
pub proof fn lemma_update_count(ts: Seq<Track>, i: int, t: Track)
    requires
        0 <= i < ts.len(),
    ensures
        stack_clip_count(ts.update(i, t)) + clip_count(ts[i].items@) == stack_clip_count(ts)
            + clip_count(t.items@),
    decreases ts.len(),
{
    let u = ts.update(i, t);
    if i == ts.len() - 1 {
        assert(u.drop_last() =~= ts.drop_last());
    } else {
        lemma_update_count(ts.drop_last(), i, t);
        assert(u.drop_last() =~= ts.drop_last().update(i, t));
    }
}

/// Inserting a clip adds one clip.
pub proof fn lemma_insert_count(s: Seq<Item>, i: int, x: Item)
    requires
        0 <= i <= s.len(),
    ensures
        clip_count(s.insert(i, x)) == clip_count(s) + if x.is_gap() { 0nat } else { 1nat },
    decreases s.len(),
{
    let u = s.insert(i, x);
    if i == s.len() {
        assert(u.drop_last() =~= s);
    } else {
        lemma_insert_count(s.drop_last(), i, x);
        assert(u.drop_last() =~= s.drop_last().insert(i, x));
    }
}

impl Default for Stack {
    /// An empty stack.
    fn default() -> (r: Stack)
        ensures
            r.children@.len() == 0,
            r.name is None,
    {
        Stack { otio_schema: default_stack_schema(), name: None, children: Vec::new(), metadata: empty_object() }
    }
}

impl Stack {
    /// The stack's own fields (all but the tracks) are those of `o`.
    pub open spec fn same_header(self, o: Stack) -> bool {
        &&& self.otio_schema == o.otio_schema
        &&& self.name == o.name
        &&& self.metadata == o.metadata
    }

    /// The stack's tracks keep their sums in range.
    pub open spec fn fits(&self) -> bool {
        all_fit(self.children@)
    }

    /// The first track whose identifier is `id`, with its index.
    pub fn get_track_by_id(&self, id: &str) -> (r: Option<(usize, &Track)>)
        ensures
            r is Some ==> first_track_with_id(self.children@, r->Some_0.0 as int, id@)
                && *r->Some_0.1 == self.children@[r->Some_0.0 as int],
            r is None ==> forall|j: int|
                0 <= j < self.children@.len() ==> (#[trigger] self.children@[j]).id_view() != Some(id@),
    {
        let key = id.to_owned();
        let mut i: usize = 0;
        while i < self.children.len()
            invariant
                i <= self.children@.len(),
                key@ == id@,
                forall|j: int| 0 <= j < i ==> (#[trigger] self.children@[j]).id_view() != Some(id@),
            decreases self.children@.len() - i,
        {
            if track_has_id(&self.children[i], &key) {
                return Some((i, &self.children[i]));
            }
            i = i + 1;
        }
        None
    }

    /// The first item with identifier `id`, searching the tracks in order:
    /// (track index, item index, item).
    pub fn get_item(&self, id: &str) -> (r: Option<(usize, usize, &Item)>)
        ensures
            r is Some ==> ({
                let (ti, ii, it) = r->Some_0;
                &&& first_holder(self.children@, ti as int, id@)
                &&& first_in_track(self.children@, ti as int, ii as int, id@)
                &&& *it == self.children@[ti as int].items@[ii as int]
            }),
            r is None ==> forall|j: int, k: int|
                0 <= j < self.children@.len() && 0 <= k < self.children@[j].items@.len()
                    ==> (#[trigger] self.children@[j].items@[k]).id_view() != Some(id@),
    {
        let mut i: usize = 0;
        while i < self.children.len()
            invariant
                i <= self.children@.len(),
                forall|j: int, k: int|
                    0 <= j < i && 0 <= k < self.children@[j].items@.len()
                        ==> (#[trigger] self.children@[j].items@[k]).id_view() != Some(id@),
            decreases self.children@.len() - i,
        {
            match self.children[i].get_item_by_id(id) {
                Some((ii, it)) => {
                    return Some((i, ii, it));
                },
                None => {},
            }
            i = i + 1;
        }
        None
    }

    /// Appends a track.
    pub fn add_track(&mut self, track: Track)
        ensures
            final(self).children@ == old(self).children@.push(track),
            final(self).same_header(*old(self)),
    {
        self.children.push(track);
    }

    /// Inserts a track at `insertion_index`; appends when the index is
    /// negative or past the end.
    pub fn add_track_at(&mut self, track: Track, insertion_index: isize)
        ensures
            final(self).same_header(*old(self)),
            (insertion_index < 0 || insertion_index >= old(self).children@.len()) ==> final(self).children@
                == old(self).children@.push(track),
            (0 <= insertion_index < old(self).children@.len()) ==> final(self).children@
                == old(self).children@.insert(insertion_index as int, track),
    {
        if insertion_index < 0 || insertion_index as usize >= self.children.len() {
            self.children.push(track);
        } else {
            self.children.insert(insertion_index as usize, track);
        }
    }

    /// Removes and returns the first track whose identifier is `id`.
    pub fn delete_track(&mut self, id: &str) -> (r: Option<Track>)
        ensures
            final(self).same_header(*old(self)),
            r is None ==> *final(self) == *old(self),
            r is None ==> final(self).children@ == old(self).children@ && forall|j: int|
                0 <= j < old(self).children@.len() ==> (#[trigger] old(self).children@[j]).id_view() != Some(id@),
            r is Some ==> exists|i: int|
                first_track_with_id(old(self).children@, i, id@) && r->Some_0 == old(self).children@[i]
                    && final(self).children@ == #[trigger] old(self).children@.remove(i),
    {
        match self.get_track_by_id(id) {
            Some((i, _)) => {
                let t = self.children.remove(i);
                Some(t)
            },
            None => None,
        }
    }
}

/// Removing a clip takes one clip away.
pub proof fn lemma_remove_count(s: Seq<Item>, i: int)
    requires
        0 <= i < s.len(),
    ensures
        clip_count(s.remove(i)) + (if s[i].is_gap() { 0nat } else { 1nat }) == clip_count(s),
{
    lemma_insert_count(s.remove(i), i, s[i]);
    assert(s.remove(i).insert(i, s[i]) =~= s);
}

impl Stack {
    /// Deletes the first clip with identifier `id` through its track's
    /// `delete_clip`, and returns its track index and a copy of it. Gaps are
    /// refused.
    pub fn delete_item(&mut self, id: &str, replace_with_gap: bool) -> (r: Option<(usize, Item)>)
        requires
            old(self).fits(),
        ensures
            final(self).fits(),
            final(self).same_header(*old(self)),
            final(self).children@.len() == old(self).children@.len(),
            forall|j: int|
                0 <= j < old(self).children@.len() ==> (#[trigger] final(self).children@[j]).same_header(
                    old(self).children@[j],
                ),
            r is None ==> *final(self) == *old(self),
            r is None ==> forall|ti: int, ii: int|
                first_holder(old(self).children@, ti, id@) && first_in_track(
                    old(self).children@,
                    ti,
                    ii,
                    id@,
                ) ==> (#[trigger] old(self).children@[ti].items@[ii]).is_gap(),
            r is Some ==> ({
                let (ti, it) = r->Some_0;
                &&& first_holder(old(self).children@, ti as int, id@)
                &&& !it.is_gap()
                &&& forall|j: int|
                    0 <= j < old(self).children@.len() && j != ti ==> #[trigger] final(self).children@[j]
                        == old(self).children@[j]
                &&& sum_durs(final(self).children@[ti as int].items@) <= sum_durs(
                    old(self).children@[ti as int].items@,
                )
                &&& gap_count(final(self).children@[ti as int].items@) <= gap_count(
                    old(self).children@[ti as int].items@,
                ) + 1
                &&& exists|ii: int|
                    #![trigger old(self).children@[ti as int].items@[ii]]
                    first_in_track(old(self).children@, ti as int, ii, id@) && it.equiv(
                        &old(self).children@[ti as int].items@[ii],
                    ) && deleted(
                        old(self).children@[ti as int].items@,
                        ii,
                        replace_with_gap,
                        final(self).children@[ti as int].items@,
                    )
                &&& !replace_with_gap ==> stack_clip_count(final(self).children@) + 1
                    == stack_clip_count(old(self).children@)
            }),
    {
        let ghost ts = self.children@;
        let (ti, ii, removed) = match self.get_item(id) {
            Some((ti, ii, it)) => (ti, ii, it.duplicate()),
            None => {
                return None;
            },
        };
        if removed.is_gap_item() {
            return None;
        }
        proof {
            assert(ts[ti as int].fits());
        }
        let deleted = self.children[ti].delete_clip(ii, replace_with_gap);
        proof {
            let nt = self.children@[ti as int];
            assert(self.children@ == ts.update(ti as int, nt));
            assert forall|j: int| 0 <= j < self.children@.len() implies (#[trigger] self.children@[j]).fits() by {
                if j != ti {
                    assert(self.children@[j] == ts[j]);
                }
            }
            assert forall|j: int| 0 <= j < self.children@.len() implies (#[trigger] self.children@[j]).same_header(ts[j]) by {
                if j != ti {
                    assert(self.children@[j] == ts[j]);
                }
            }
            if !replace_with_gap {
                lemma_update_count(ts, ti as int, nt);
                lemma_remove_count(ts[ti as int].items@, ii as int);
            }
        }
        Some((ti, removed))
    }

    /// Inserts `item` at time `t` into track `dest_track_index`. False, with
    /// nothing changed, when there is no such track or the time is negative.
    pub fn insert_item_at_time(
        &mut self,
        dest_track_index: usize,
        t: Nanos,
        item: Item,
        overlap_policy: OverlapPolicy,
        insert_policy: InsertPolicy,
    ) -> (r: bool)
        requires
            old(self).fits(),
            dest_track_index < old(self).children@.len() ==> can_take(
                old(self).children@[dest_track_index as int].items@,
                item,
            ),
            dest_track_index < old(self).children@.len() ==> t + pos(item.dur()) <= i64::MAX,
        ensures
            final(self).fits(),
            final(self).children@.len() == old(self).children@.len(),
            r == (dest_track_index < old(self).children@.len() && t >= 0),
            !r ==> *final(self) == *old(self),
            final(self).same_header(*old(self)),
            r ==> final(self).children@[dest_track_index as int].same_header(
                old(self).children@[dest_track_index as int],
            ),
            r ==> inserted(
                old(self).children@[dest_track_index as int].items@,
                t as int,
                item,
                overlap_policy,
                insert_policy,
                final(self).children@[dest_track_index as int].items@,
            ),
            forall|j: int|
                0 <= j < old(self).children@.len() && j != dest_track_index ==> #[trigger] final(self).children@[j] == old(self).children@[j],
            r && overlap_policy == OverlapPolicy::Push && !splits_at(
                old(self).children@[dest_track_index as int].items@,
                t as int,
                insert_policy,
            ) && t <= sum_durs(old(self).children@[dest_track_index as int].items@) ==> final(self).children@[dest_track_index as int].items@ == old(self).children@[dest_track_index as int].items@.insert(
                snap_index(old(self).children@[dest_track_index as int].items@, t as int, insert_policy),
                item,
            ),
    {
        if dest_track_index >= self.children.len() || t < 0 {
            return false;
        }
        let ghost ts = self.children@;
        proof {
            assert(ts[dest_track_index as int].fits());
        }
        let _ = self.children[dest_track_index].insert_at_time(t, item, overlap_policy, insert_policy);
        proof {
            assert forall|j: int| 0 <= j < self.children@.len() implies (#[trigger] self.children@[j]).fits() by {
                if j != dest_track_index {
                    assert(self.children@[j] == ts[j]);
                }
            }
        }
        true
    }
}

impl Stack {
    /// Inserts `item` at index `dest_index` of the track whose identifier is
    /// `dest_track_id`. False, with nothing changed, when there is no such track.
    pub fn insert_item_at_index(
        &mut self,
        dest_track_id: &str,
        dest_index: usize,
        item: Item,
        overlap_policy: OverlapPolicy,
    ) -> (r: bool)
        requires
            old(self).fits(),
            forall|a: int|
                0 <= a < old(self).children@.len() ==> can_take(
                    (#[trigger] old(self).children@[a]).items@,
                    item,
                ),
        ensures
            final(self).fits(),
            final(self).children@.len() == old(self).children@.len(),
            r == exists|d: int| first_track_with_id(old(self).children@, d, dest_track_id@),
            !r ==> *final(self) == *old(self),
            final(self).same_header(*old(self)),
            forall|d: int|
                first_track_with_id(old(self).children@, d, dest_track_id@) ==> #[trigger] index_inserted(
                    old(self).children@[d].items@,
                    dest_index,
                    item,
                    overlap_policy,
                    final(self).children@[d].items@,
                ) && final(self).children@[d].same_header(old(self).children@[d]),
            forall|d: int|
                first_track_with_id(old(self).children@, d, dest_track_id@) ==> forall|j: int|
                    0 <= j < old(self).children@.len() && j != d ==> #[trigger] final(self).children@[j]
                        == old(self).children@[j],
            forall|d: int|
                first_track_with_id(old(self).children@, d, dest_track_id@) && overlap_policy
                    == OverlapPolicy::Push ==> #[trigger] final(self).children@[d].items@ == old(self).children@[d].items@.insert(
                    crate::edit::clamp_index(old(self).children@[d].items@, dest_index),
                    item,
                ),
    {
        let ghost ts = self.children@;
        let d = match self.get_track_by_id(dest_track_id) {
            Some((i, _)) => i,
            None => {
                return false;
            },
        };
        proof {
            assert(ts[d as int].fits());
            assert forall|e: int| first_track_with_id(ts, e, dest_track_id@) implies e == d by {
                if e < d {
                    assert(ts[e].id_view() != Some(dest_track_id@));
                } else if e > d {
                    assert(ts[d as int].id_view() != Some(dest_track_id@));
                }
            }
        }
        self.children[d].insert_at_index(dest_index, item, overlap_policy);
        proof {
            assert forall|j: int| 0 <= j < self.children@.len() implies (#[trigger] self.children@[j]).fits() by {
                if j != d {
                    assert(self.children@[j] == ts[j]);
                }
            }
        }
        true
    }

    /// Moves the first clip with identifier `item_id` to time `t` on the track
    /// whose identifier is `dest_track_id`: the clip is deleted (optionally
    /// leaving a gap), then inserted. False, with nothing changed, when the
    /// time is negative, the clip or the track is not found, or the item is a gap.
    pub fn move_item_at_time(
        &mut self,
        item_id: &str,
        dest_track_id: &str,
        t: Nanos,
        replace_with_gap: bool,
        insert_policy: InsertPolicy,
        overlap_policy: OverlapPolicy,
    ) -> (r: bool)
        requires
            old(self).fits(),
            room_for_moves(old(self).children@, t as int),
        ensures
            final(self).fits(),
            final(self).children@.len() == old(self).children@.len(),
            !r ==> *final(self) == *old(self),
            final(self).same_header(*old(self)),
            r ==> forall|d: int, si: int, ii: int|
                #![trigger first_track_with_id(old(self).children@, d, dest_track_id@), old(self).children@[si].items@[ii]]
                first_track_with_id(old(self).children@, d, dest_track_id@) && first_holder(
                    old(self).children@,
                    si,
                    item_id@,
                ) && first_in_track(old(self).children@, si, ii, item_id@) ==> moved_at_time(
                    old(self).children@,
                    si,
                    ii,
                    d,
                    replace_with_gap,
                    t as int,
                    overlap_policy,
                    insert_policy,
                    final(self).children@,
                ) && moved_frame(old(self).children@, si, d, final(self).children@),
            r <==> (t >= 0 && (exists|d: int| first_track_with_id(old(self).children@, d, dest_track_id@))
                && exists|si: int, ii: int|
                first_holder(old(self).children@, si, item_id@) && first_in_track(
                    old(self).children@,
                    si,
                    ii,
                    item_id@,
                ) && !(#[trigger] old(self).children@[si].items@[ii]).is_gap()),
            r && !replace_with_gap && overlap_policy == OverlapPolicy::Push && insert_policy
                != InsertPolicy::SplitAndInsert ==> forall|d: int, si: int, ii: int|
                #![trigger first_track_with_id(old(self).children@, d, dest_track_id@), old(self).children@[si].items@[ii]]
                first_track_with_id(old(self).children@, d, dest_track_id@) && first_holder(
                    old(self).children@,
                    si,
                    item_id@,
                ) && first_in_track(old(self).children@, si, ii, item_id@) && t <= sum_durs(
                    old(self).children@[d].items@,
                ) - (if d == si { pos(old(self).children@[si].items@[ii].dur()) } else { 0 })
                    ==> stack_clip_count(final(self).children@) == stack_clip_count(old(self).children@),
            r ==> forall|d: int, si: int|
                #![trigger first_track_with_id(old(self).children@, d, dest_track_id@), first_holder(old(self).children@, si, item_id@)]
                first_track_with_id(old(self).children@, d, dest_track_id@) && first_holder(
                    old(self).children@,
                    si,
                    item_id@,
                ) && d != si ==> gap_count(final(self).children@[si].items@) <= gap_count(
                    old(self).children@[si].items@,
                ) + 1,
    {
        let ghost ts = self.children@;
        if t < 0 {
            return false;
        }
        let (si, ii, x) = match self.get_item(item_id) {
            Some((si, ii, it)) => (si, ii, it.duplicate()),
            None => {
                return false;
            },
        };
        if x.is_gap_item() {
            return false;
        }
        let d = match self.get_track_by_id(dest_track_id) {
            Some((i, _)) => i,
            None => {
                return false;
            },
        };
        proof {
            assert forall|e: int| first_track_with_id(ts, e, dest_track_id@) implies e == d by {
                if e < d {
                    assert(ts[e].id_view() != Some(dest_track_id@));
                } else if e > d {
                    assert(ts[d as int].id_view() != Some(dest_track_id@));
                }
            }
            assert forall|e: int| first_holder(ts, e, item_id@) implies e == si by {
                if e < si {
                    assert(ts[si as int].items@[ii as int].id_view() == Some(item_id@));
                    let k = choose|k: int| 0 <= k < ts[e].items@.len() && (#[trigger] ts[e].items@[k]).id_view() == Some(item_id@);
                    assert(ts[e].items@[k].id_view() == Some(item_id@));
                } else if e > si {
                    assert(ts[si as int].items@[ii as int].id_view() == Some(item_id@));
                }
            }
            assert forall|e: int| first_in_track(ts, si as int, e, item_id@) implies e == ii by {
                if e < ii {
                    assert(ts[si as int].items@[e].id_view() != Some(item_id@));
                } else if e > ii {
                    assert(ts[si as int].items@[ii as int].id_view() != Some(item_id@));
                }
            }
        }
        let removal = self.delete_item(item_id, replace_with_gap);
        let ghost mid = self.children@;
        proof {
            assert(removal is Some);
            let x0 = ts[si as int].items@[ii as int];
            assert(x.equiv(&x0));
            assert(sum_durs(mid[d as int].items@) <= sum_durs(ts[d as int].items@)) by {
                if d != si {
                    assert(mid[d as int] == ts[d as int]);
                }
            }
            assert(can_take(mid[d as int].items@, x)) by {
                assert(mid[d as int].fits());
                assert(ts[d as int] == ts[d as int]);
            }
        }
        let ok = self.insert_item_at_time(d, t, x, overlap_policy, insert_policy);
        proof {
            if !replace_with_gap && overlap_policy == OverlapPolicy::Push && insert_policy
                != InsertPolicy::SplitAndInsert {
                let md = mid[d as int];
                let x0 = ts[si as int].items@[ii as int];
                if t <= sum_durs(ts[d as int].items@) - (if d == si { pos(x0.dur()) } else { 0 }) {
                    if d == si {
                        assert(md.items@ == ts[si as int].items@.remove(ii as int));
                        crate::edit::lemma_sum_remove(ts[si as int].items@, ii as int);
                        assert(md.items@ =~= ts[si as int].items@.take(ii as int) + ts[si as int].items@.skip(ii + 1));
                    }
                    assert(t <= sum_durs(md.items@));
                    let nd = self.children@[d as int];
                    assert(nd.items@ == md.items@.insert(snap_index(md.items@, t as int, insert_policy), x));
                    crate::timing::lemma_sum_nonneg(md.items@);
                    lemma_update_count(mid, d as int, nd);
                    assert(self.children@ =~= mid.update(d as int, nd));
                    lemma_insert_count(md.items@, snap_index(md.items@, t as int, insert_policy), x);
                }
            }
            let fs = self.children@;
            let mi = mid[si as int].items@;
            assert(deleted(ts[si as int].items@, ii as int, replace_with_gap, mi));
            assert(moved_at_time(ts, si as int, ii as int, d as int, replace_with_gap, t as int, overlap_policy, insert_policy, fs));
            assert(moved_frame(ts, si as int, d as int, fs));
        }
        ok
    }
}

impl Stack {
    /// Moves the first clip with identifier `item_id` to index `dest_index` of
    /// the track whose identifier is `dest_track_id`. False, with nothing
    /// changed, when the clip or the track is not found or the item is a gap.
    pub fn move_item_at_index(
        &mut self,
        item_id: &str,
        dest_track_id: &str,
        dest_index: usize,
        replace_with_gap: bool,
        overlap_policy: OverlapPolicy,
    ) -> (r: bool)
        requires
            old(self).fits(),
            room_for_moves(old(self).children@, 0),
        ensures
            final(self).fits(),
            final(self).children@.len() == old(self).children@.len(),
            !r ==> *final(self) == *old(self),
            final(self).same_header(*old(self)),
            r ==> forall|d: int, si: int, ii: int|
                #![trigger first_track_with_id(old(self).children@, d, dest_track_id@), old(self).children@[si].items@[ii]]
                first_track_with_id(old(self).children@, d, dest_track_id@) && first_holder(
                    old(self).children@,
                    si,
                    item_id@,
                ) && first_in_track(old(self).children@, si, ii, item_id@) ==> moved_at_index(
                    old(self).children@,
                    si,
                    ii,
                    d,
                    replace_with_gap,
                    dest_index,
                    overlap_policy,
                    final(self).children@,
                ) && moved_frame(old(self).children@, si, d, final(self).children@),
            r <==> ((exists|d: int| first_track_with_id(old(self).children@, d, dest_track_id@))
                && exists|si: int, ii: int|
                first_holder(old(self).children@, si, item_id@) && first_in_track(
                    old(self).children@,
                    si,
                    ii,
                    item_id@,
                ) && !(#[trigger] old(self).children@[si].items@[ii]).is_gap()),
            r && !replace_with_gap && overlap_policy == OverlapPolicy::Push ==> stack_clip_count(
                final(self).children@,
            ) == stack_clip_count(old(self).children@),
    {
        let ghost ts = self.children@;
        let (si, ii, x) = match self.get_item(item_id) {
            Some((si, ii, it)) => (si, ii, it.duplicate()),
            None => {
                return false;
            },
        };
        if x.is_gap_item() {
            return false;
        }
        let d = match self.get_track_by_id(dest_track_id) {
            Some((i, _)) => i,
            None => {
                return false;
            },
        };
        proof {
            assert forall|e: int| first_holder(ts, e, item_id@) implies e == si by {
                if e < si {
                    let k = choose|k: int| 0 <= k < ts[e].items@.len() && (#[trigger] ts[e].items@[k]).id_view() == Some(item_id@);
                    assert(ts[e].items@[k].id_view() == Some(item_id@));
                } else if e > si {
                    assert(ts[si as int].items@[ii as int].id_view() == Some(item_id@));
                }
            }
            assert forall|e: int| first_in_track(ts, si as int, e, item_id@) implies e == ii by {
                if e < ii {
                    assert(ts[si as int].items@[e].id_view() != Some(item_id@));
                } else if e > ii {
                    assert(ts[si as int].items@[ii as int].id_view() != Some(item_id@));
                }
            }
        }
        let removal = self.delete_item(item_id, replace_with_gap);
        let ghost mid = self.children@;
        proof {
            assert(removal is Some);
            let x0 = ts[si as int].items@[ii as int];
            assert forall|a: int| 0 <= a < mid.len() implies can_take((#[trigger] mid[a]).items@, x) by {
                assert(mid[a].fits());
                if a != si {
                    assert(mid[a] == ts[a]);
                }
                assert(ts[a] == ts[a]);
            }
        }
        let ok = self.insert_item_at_index(dest_track_id, dest_index, x, overlap_policy);
        proof {
            assert(first_track_with_id(mid, d as int, dest_track_id@)) by {
                assert(mid[d as int].id == ts[d as int].id);
                assert forall|j: int| 0 <= j < d implies (#[trigger] mid[j]).id_view() != Some(dest_track_id@) by {
                    assert(mid[j].id == ts[j].id);
                }
            }
            if !replace_with_gap && overlap_policy == OverlapPolicy::Push {
                let md = mid[d as int];
                let nd = self.children@[d as int];
                let k = crate::edit::clamp_index(md.items@, dest_index);
                assert(nd.items@ == md.items@.insert(k, x));
                lemma_update_count(mid, d as int, nd);
                assert(self.children@ =~= mid.update(d as int, nd));
                lemma_insert_count(md.items@, k, x);
            }
        }
        proof {
            let fs = self.children@;
            let mi = mid[si as int].items@;
            assert(deleted(ts[si as int].items@, ii as int, replace_with_gap, mi));
            assert(index_inserted(mid[d as int].items@, dest_index, x, overlap_policy, fs[d as int].items@));
            assert(moved_at_index(ts, si as int, ii as int, d as int, replace_with_gap, dest_index, overlap_policy, fs));
            assert(moved_frame(ts, si as int, d as int, fs));
        }
        ok
    }
}

impl Default for Timeline {
    /// An empty timeline.
    fn default() -> (r: Timeline)
        ensures
            r.tracks.children@.len() == 0,
            r.name is None,
    {
        Timeline { otio_schema: default_timeline_schema(), name: None, tracks: Stack::default(), metadata: empty_object() }
    }
}

impl Timeline {
    /// Appends a track.
    pub fn add_track(&mut self, track: Track)
        ensures
            final(self).otio_schema == old(self).otio_schema,
            final(self).name == old(self).name,
            final(self).metadata == old(self).metadata,
            final(self).tracks.same_header(old(self).tracks),
            final(self).tracks.children@ == old(self).tracks.children@.push(track),
    {
        self.tracks.add_track(track);
    }

    /// Inserts a track at `insertion_index`; appends when the index is
    /// negative or past the end.
    pub fn add_track_at(&mut self, track: Track, insertion_index: isize)
        ensures
            final(self).otio_schema == old(self).otio_schema,
            final(self).name == old(self).name,
            final(self).metadata == old(self).metadata,
            final(self).tracks.same_header(old(self).tracks),
            (insertion_index < 0 || insertion_index >= old(self).tracks.children@.len()) ==> final(self).tracks.children@
                == old(self).tracks.children@.push(track),
            (0 <= insertion_index < old(self).tracks.children@.len()) ==> final(self).tracks.children@
                == old(self).tracks.children@.insert(insertion_index as int, track),
    {
        self.tracks.add_track_at(track, insertion_index);
    }

    /// Removes and returns the first track whose identifier is `id`.
    pub fn delete_track(&mut self, id: &str) -> (r: Option<Track>)
        ensures
            final(self).otio_schema == old(self).otio_schema,
            final(self).name == old(self).name,
            final(self).metadata == old(self).metadata,
            final(self).tracks.same_header(old(self).tracks),
            r is None ==> final(self).tracks.children@ == old(self).tracks.children@,
            r is Some ==> exists|i: int|
                first_track_with_id(old(self).tracks.children@, i, id@) && r->Some_0
                    == old(self).tracks.children@[i] && final(self).tracks.children@
                    == #[trigger] old(self).tracks.children@.remove(i),
    {
        self.tracks.delete_track(id)
    }
}

} // verus!
