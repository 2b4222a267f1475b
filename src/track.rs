//! Tracks, stacks and timelines, and the read-only queries on a track.
use vstd::prelude::*;

use crate::ids::{fresh_id, is_hex_id};
use crate::json::empty_object;
use crate::model::{opt_view, copy_opt_string, Clip, Gap, Item, MediaReference};
use crate::time::{pos, clamp_nonneg, Nanos};
use crate::timing::{fits, holds_time, lemma_sum_take_mono, lemma_sum_take_next, lemma_take_all, offsets_fit, start_of, sum_durs};

verus! {

/// What a track carries.
#[derive(Debug, PartialEq, Eq, Structural, Clone, Copy)]
pub enum TrackKind {
    Video,
    Audio,
    Other,
}

/// A gapless sequence of items in playback order.
#[derive(Debug, Clone, PartialEq)]
pub struct Track {
    pub otio_schema: String,
    pub kind: TrackKind,
    pub name: Option<String>,
    pub items: Vec<Item>,
    pub metadata: serde_json::Value,
    /// The stable identifier of the track.
    pub id: Option<String>,
}

/// Tracks composited in list order.
#[derive(Debug, Clone, PartialEq)]
pub struct Stack {
    pub otio_schema: String,
    pub name: Option<String>,
    pub children: Vec<Track>,
    pub metadata: serde_json::Value,
}

/// A named stack of tracks.
#[derive(Debug, Clone, PartialEq)]
pub struct Timeline {
    pub otio_schema: String,
    pub name: Option<String>,
    pub tracks: Stack,
    pub metadata: serde_json::Value,
}

/// Reading and writing the stable identifier of an entity.
pub trait IdMetadataExt: Sized {
    spec fn id_view(&self) -> Option<Seq<char>>;

    /// The entity with its identifier replaced and nothing else changed.
    spec fn with_id_spec(&self, id: Option<String>) -> Self;

    fn get_id(&self) -> (r: Option<String>)
        ensures
            opt_view(r) == self.id_view(),
    ;

    fn set_id(&mut self, id: Option<String>)
        ensures
            final(self).id_view() == opt_view(id),
            *final(self) == old(self).with_id_spec(id),
    ;
}

impl IdMetadataExt for Clip {
    open spec fn id_view(&self) -> Option<Seq<char>> {
        opt_view(self.id)
    }

    open spec fn with_id_spec(&self, id: Option<String>) -> Clip {
        Clip { id, ..*self }
    }

    fn get_id(&self) -> (r: Option<String>) {
        copy_opt_string(&self.id)
    }

    fn set_id(&mut self, id: Option<String>) {
        self.id = id;
    }
}

impl IdMetadataExt for Gap {
    open spec fn id_view(&self) -> Option<Seq<char>> {
        opt_view(self.id)
    }

    open spec fn with_id_spec(&self, id: Option<String>) -> Gap {
        Gap { id, ..*self }
    }

    fn get_id(&self) -> (r: Option<String>) {
        copy_opt_string(&self.id)
    }

    fn set_id(&mut self, id: Option<String>) {
        self.id = id;
    }
}

impl IdMetadataExt for Item {
    open spec fn id_view(&self) -> Option<Seq<char>> {
        opt_view(self.id_spec())
    }

    open spec fn with_id_spec(&self, id: Option<String>) -> Item {
        self.with_id(id)
    }

    fn get_id(&self) -> (r: Option<String>) {
        match self {
            Item::Clip(c) => copy_opt_string(&c.id),
            Item::Gap(g) => copy_opt_string(&g.id),
        }
    }

    fn set_id(&mut self, id: Option<String>) {
        match self {
            Item::Clip(c) => {
                c.id = id;
            },
            Item::Gap(g) => {
                g.id = id;
            },
        }
    }
}

impl IdMetadataExt for Track {
    open spec fn id_view(&self) -> Option<Seq<char>> {
        opt_view(self.id)
    }

    open spec fn with_id_spec(&self, id: Option<String>) -> Track {
        Track { id, ..*self }
    }

    fn get_id(&self) -> (r: Option<String>) {
        copy_opt_string(&self.id)
    }

    fn set_id(&mut self, id: Option<String>) {
        self.id = id;
    }
}

/// Access to the opaque metadata blob of an entity.
pub trait MetadataExt: Sized {
    spec fn metadata_spec(&self) -> serde_json::Value;

    /// The entity with its metadata replaced and nothing else changed.
    spec fn with_metadata_spec(&self, metadata: serde_json::Value) -> Self;

    fn get_metadata(&self) -> (r: &serde_json::Value)
        ensures
            *r == self.metadata_spec(),
    ;

    fn set_metadata(&mut self, metadata: serde_json::Value)
        ensures
            final(self).metadata_spec() == metadata,
            *final(self) == old(self).with_metadata_spec(metadata),
    ;
}

impl MetadataExt for Timeline {
    open spec fn metadata_spec(&self) -> serde_json::Value {
        self.metadata
    }

    open spec fn with_metadata_spec(&self, metadata: serde_json::Value) -> Timeline {
        Timeline { metadata, ..*self }
    }

    fn get_metadata(&self) -> (r: &serde_json::Value) {
        &self.metadata
    }

    fn set_metadata(&mut self, metadata: serde_json::Value) {
        self.metadata = metadata;
    }
}

impl MetadataExt for Stack {
    open spec fn metadata_spec(&self) -> serde_json::Value {
        self.metadata
    }

    open spec fn with_metadata_spec(&self, metadata: serde_json::Value) -> Stack {
        Stack { metadata, ..*self }
    }

    fn get_metadata(&self) -> (r: &serde_json::Value) {
        &self.metadata
    }

    fn set_metadata(&mut self, metadata: serde_json::Value) {
        self.metadata = metadata;
    }
}

impl MetadataExt for Track {
    open spec fn metadata_spec(&self) -> serde_json::Value {
        self.metadata
    }

    open spec fn with_metadata_spec(&self, metadata: serde_json::Value) -> Track {
        Track { metadata, ..*self }
    }

    fn get_metadata(&self) -> (r: &serde_json::Value) {
        &self.metadata
    }

    fn set_metadata(&mut self, metadata: serde_json::Value) {
        self.metadata = metadata;
    }
}

impl MetadataExt for Clip {
    open spec fn metadata_spec(&self) -> serde_json::Value {
        self.metadata
    }

    open spec fn with_metadata_spec(&self, metadata: serde_json::Value) -> Clip {
        Clip { metadata, ..*self }
    }

    fn get_metadata(&self) -> (r: &serde_json::Value) {
        &self.metadata
    }

    fn set_metadata(&mut self, metadata: serde_json::Value) {
        self.metadata = metadata;
    }
}

impl MetadataExt for Gap {
    open spec fn metadata_spec(&self) -> serde_json::Value {
        self.metadata
    }

    open spec fn with_metadata_spec(&self, metadata: serde_json::Value) -> Gap {
        Gap { metadata, ..*self }
    }

    fn get_metadata(&self) -> (r: &serde_json::Value) {
        &self.metadata
    }

    fn set_metadata(&mut self, metadata: serde_json::Value) {
        self.metadata = metadata;
    }
}

impl MetadataExt for MediaReference {
    open spec fn metadata_spec(&self) -> serde_json::Value {
        self.metadata
    }

    open spec fn with_metadata_spec(&self, metadata: serde_json::Value) -> MediaReference {
        MediaReference { metadata, ..*self }
    }

    fn get_metadata(&self) -> (r: &serde_json::Value) {
        &self.metadata
    }

    fn set_metadata(&mut self, metadata: serde_json::Value) {
        self.metadata = metadata;
    }
}

impl MetadataExt for Item {
    open spec fn metadata_spec(&self) -> serde_json::Value {
        match self {
            Item::Clip(c) => c.metadata,
            Item::Gap(g) => g.metadata,
        }
    }

    open spec fn with_metadata_spec(&self, metadata: serde_json::Value) -> Item {
        match self {
            Item::Clip(c) => Item::Clip(Clip { metadata, ..*c }),
            Item::Gap(g) => Item::Gap(Gap { metadata, ..*g }),
        }
    }

    fn get_metadata(&self) -> (r: &serde_json::Value) {
        match self {
            Item::Clip(c) => &c.metadata,
            Item::Gap(g) => &g.metadata,
        }
    }

    fn set_metadata(&mut self, metadata: serde_json::Value) {
        match self {
            Item::Clip(c) => {
                c.metadata = metadata;
            },
            Item::Gap(g) => {
                g.metadata = metadata;
            },
        }
    }
}

/// Whether an optional identifier is `id`.
fn id_is(o: &Option<String>, id: &String) -> (r: bool)
    ensures
        r == (opt_view(*o) == Some(id@)),
{
    match o {
        Some(s) => *s == *id,
        None => false,
    }
}

/// Whether an item's identifier is `id`.
pub fn item_has_id(it: &Item, id: &String) -> (r: bool)
    ensures
        r == (it.id_view() == Some(id@)),
{
    match it {
        Item::Clip(c) => id_is(&c.id, id),
        Item::Gap(g) => id_is(&g.id, id),
    }
}

/// Whether a track's identifier is `id`.
pub fn track_has_id(t: &Track, id: &String) -> (r: bool)
    ensures
        r == (t.id_view() == Some(id@)),
{
    id_is(&t.id, id)
}

pub fn default_track_schema() -> (r: String)
    ensures
        r@ == "Track.1"@,
{
    "Track.1".to_string()
}

pub fn default_stack_schema() -> (r: String)
    ensures
        r@ == "Stack.1"@,
{
    "Stack.1".to_string()
}

pub fn default_timeline_schema() -> (r: String)
    ensures
        r@ == "Timeline.1"@,
{
    "Timeline.1".to_string()
}

impl Default for Track {
    /// An empty video track with a fresh identifier.
    fn default() -> (r: Track)
        ensures
            r.kind == TrackKind::Video,
            r.items@.len() == 0,
            r.id is Some && is_hex_id(r.id->Some_0@),
    {
        Track::new(TrackKind::Video, None)
    }
}

impl Track {
    /// Everything but the items is the same as in `o`.
    pub open spec fn same_header(self, o: Track) -> bool {
        &&& self.otio_schema == o.otio_schema
        &&& self.kind == o.kind
        &&& self.name == o.name
        &&& self.metadata == o.metadata
        &&& self.id == o.id
    }

    /// The arithmetic on this track stays within range.
    pub open spec fn fits(&self) -> bool {
        fits(self.items@) && offsets_fit(self.items@)
    }

    /// An empty track. Without `id`, a fresh one is drawn.
    pub fn new(kind: TrackKind, id: Option<String>) -> (r: Track)
        ensures
            r.kind == kind,
            r.items@.len() == 0,
            r.name is None,
            id is Some ==> r.id == id,
            id is None ==> r.id is Some && is_hex_id(r.id->Some_0@),
    {
        let id = match id {
            Some(s) => s,
            None => fresh_id(),
        };
        Track {
            otio_schema: default_track_schema(),
            kind,
            name: None,
            items: Vec::new(),
            metadata: empty_object(),
            id: Some(id),
        }
    }

    /// Whether the arithmetic on this track stays within range: the total
    /// duration and every clip's media offset plus its length fit in a time value.
    pub fn within_range(&self) -> (r: bool)
        ensures
            r == self.fits(),
    {
        let mut acc: i128 = 0;
        let mut i: usize = 0;
        while i < self.items.len()
            invariant
                i <= self.items@.len(),
                acc == sum_durs(self.items@.take(i as int)),
                acc <= i64::MAX,
                forall|j: int| 0 <= j < i && !(#[trigger] self.items@[j]).is_gap() ==> self.items@[j].start()
                    + pos(self.items@[j].dur()) <= i64::MAX,
            decreases self.items@.len() - i,
        {
            proof {
                lemma_sum_take_next(self.items@, i as int);
            }
            let d = clamp_nonneg(self.items[i].duration());
            acc = acc + (d as i128);
            if acc > (i64::MAX as i128) {
                proof {
                    lemma_sum_take_mono(self.items@, i as int + 1, self.items@.len() as int);
                }
                return false;
            }
            if !self.items[i].is_gap_item() && (self.items[i].media_offset() as i128) + (d as i128) > (
            i64::MAX as i128) {
                return false;
            }
            i = i + 1;
        }
        proof {
            lemma_take_all(self.items@);
        }
        true
    }

    /// Where item `index` starts; the total duration when `index` is past the end.
    pub fn start_time_of_item(&self, index: usize) -> (r: Nanos)
        requires
            fits(self.items@),
        ensures
            index <= self.items@.len() ==> r == start_of(self.items@, index as int),
            index > self.items@.len() ==> r == sum_durs(self.items@),
    {
        let mut acc: Nanos = 0;
        let mut i: usize = 0;
        while i < self.items.len() && i < index
            invariant
                i <= self.items@.len(),
                i <= index,
                fits(self.items@),
                acc == start_of(self.items@, i as int),
            decreases self.items@.len() - i,
        {
            proof {
                lemma_sum_take_next(self.items@, i as int);
                lemma_sum_take_mono(self.items@, i as int + 1, self.items@.len() as int);
            }
            acc = acc + clamp_nonneg(self.items[i].duration());
            i = i + 1;
        }
        proof {
            lemma_take_all(self.items@);
        }
        acc
    }

    /// The sum of the clamped durations of the items.
    pub fn total_duration(&self) -> (r: Nanos)
        requires
            fits(self.items@),
        ensures
            r == sum_durs(self.items@),
    {
        proof {
            lemma_take_all(self.items@);
        }
        self.start_time_of_item(self.items.len())
    }

    /// The index of the item that holds time `t`, if any.
    pub fn get_item_at_time(&self, t: Nanos) -> (r: Option<usize>)
        requires
            fits(self.items@),
        ensures
            r is Some ==> holds_time(self.items@, r->Some_0 as int, t as int),
            r is None ==> forall|j: int| !holds_time(self.items@, j, t as int),
    {
        let mut start: Nanos = 0;
        let mut i: usize = 0;
        while i < self.items.len()
            invariant
                i <= self.items@.len(),
                fits(self.items@),
                start == start_of(self.items@, i as int),
                forall|j: int| 0 <= j < i ==> #[trigger] start_of(self.items@, j) + pos(self.items@[j].dur()) <= t,
            decreases self.items@.len() - i,
        {
            proof {
                lemma_sum_take_next(self.items@, i as int);
                lemma_sum_take_mono(self.items@, i as int + 1, self.items@.len() as int);
            }
            let end = start + clamp_nonneg(self.items[i].duration());
            if start <= t && t < end {
                return Some(i);
            }
            if t < start {
                proof {
                    assert forall|j: int| !holds_time(self.items@, j, t as int) by {
                        if 0 <= j < self.items@.len() && j >= i {
                            lemma_sum_take_mono(self.items@, i as int, j);
                        }
                    }
                }
                return None;
            }
            start = end;
            i = i + 1;
        }
        None
    }

    /// The first item whose identifier is `id`, with its index.
    pub fn get_item_by_id(&self, id: &str) -> (r: Option<(usize, &Item)>)
        ensures
            r is Some ==> ({
                let (i, it) = r->Some_0;
                &&& i < self.items@.len()
                &&& *it == self.items@[i as int]
                &&& it.id_view() == Some(id@)
                &&& forall|j: int| 0 <= j < i ==> self.items@[j].id_view() != Some(id@)
            }),
            r is None ==> forall|j: int|
                0 <= j < self.items@.len() ==> self.items@[j].id_view() != Some(id@),
    {
        let key = id.to_owned();
        let mut i: usize = 0;
        while i < self.items.len()
            invariant
                i <= self.items@.len(),
                key@ == id@,
                forall|j: int| 0 <= j < i ==> self.items@[j].id_view() != Some(id@),
            decreases self.items@.len() - i,
        {
            if item_has_id(&self.items[i], &key) {
                return Some((i, &self.items[i]));
            }
            i = i + 1;
        }
        None
    }
}

} // verus!
