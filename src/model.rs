//! The entities of a timeline: media references, clips, gaps, tracks, stacks.
use vstd::prelude::*;

use crate::ids::{fresh_id, is_hex_id};
use crate::json::{copy_opt_json, empty_object};
use crate::time::{Nanos, RationalTime, TimeRange};

verus! {

/// The key under which a clip made from a single media reference stores it.
pub fn default_media_key() -> (r: String)
    ensures
        r@ == "DEFAULT_MEDIA"@,
{
    "DEFAULT_MEDIA".to_string()
}

/// A reference to an external media asset.
#[derive(Debug, Clone, PartialEq)]
pub struct MediaReference {
    pub otio_schema: String,
    pub target_url: String,
    /// The portion of the asset that can be used.
    pub available_range: Option<TimeRange>,
    pub name: Option<String>,
    pub available_image_bounds: Option<serde_json::Value>,
    pub metadata: serde_json::Value,
}

/// A piece of media placed on a track.
#[derive(Debug, Clone, PartialEq)]
pub struct Clip {
    pub otio_schema: String,
    pub name: Option<String>,
    /// `start_time` is the offset into the active media; `duration` the length on the track.
    pub source_range: TimeRange,
    /// Media references by key; keys are unique.
    pub media_references: Vec<(String, MediaReference)>,
    pub active_media_reference_key: Option<String>,
    pub metadata: serde_json::Value,
    /// The stable identifier of the clip.
    pub id: Option<String>,
}

/// Empty time on a track.
#[derive(Debug, Clone, PartialEq)]
pub struct Gap {
    pub otio_schema: String,
    pub name: Option<String>,
    pub source_range: TimeRange,
    pub metadata: serde_json::Value,
    /// The stable identifier of the gap.
    pub id: Option<String>,
}

/// An entry of a track: a clip or a gap.
#[derive(Debug, Clone, PartialEq)]
pub enum Item {
    Clip(Clip),
    Gap(Gap),
}

/// The view of an optional string.
pub open spec fn opt_view(o: Option<String>) -> Option<Seq<char>> {
    match o {
        Some(s) => Some(s@),
        None => None,
    }
}

/// A copy of an optional string, equal to its source.
pub fn copy_opt_string(o: &Option<String>) -> (r: Option<String>)
    ensures
        r == *o,
{
    match o {
        Some(s) => Some(s.clone()),
        None => None,
    }
}

pub fn default_clip_schema() -> (r: String)
    ensures
        r@ == "Clip.2"@,
{
    "Clip.2".to_string()
}

pub fn default_gap_schema() -> (r: String)
    ensures
        r@ == "Gap.1"@,
{
    "Gap.1".to_string()
}

pub fn default_external_ref_schema() -> (r: String)
    ensures
        r@ == "ExternalReference.1"@,
{
    "ExternalReference.1".to_string()
}

impl MediaReference {
    /// `available_range.start_time.value`, or zero when the range is unknown.
    pub open spec fn media_start_spec(&self) -> int {
        match self.available_range {
            Some(tr) => tr.start_time.value as int,
            None => 0,
        }
    }

    /// A copy equal to `self`.
    pub fn duplicate(&self) -> (r: MediaReference)
        ensures
            r == *self,
    {
        let available_range = match &self.available_range {
            Some(tr) => Some(tr.duplicate()),
            None => None,
        };
        MediaReference {
            otio_schema: self.otio_schema.clone(),
            target_url: self.target_url.clone(),
            available_range,
            name: copy_opt_string(&self.name),
            available_image_bounds: copy_opt_json(&self.available_image_bounds),
            metadata: self.metadata.clone(),
        }
    }

    pub fn media_start(&self) -> (r: Nanos)
        ensures
            r == self.media_start_spec(),
    {
        match &self.available_range {
            Some(tr) => tr.start_time.value,
            None => 0,
        }
    }

    /// Sets the start of the available range, creating a range of zero
    /// duration when there is none.
    pub fn set_media_start(&mut self, start: Nanos)
        ensures
            final(self).available_range is Some,
            final(self).media_start_spec() == start,
            old(self).available_range is Some ==> final(self).available_range->Some_0.duration
                == old(self).available_range->Some_0.duration,
            old(self).available_range is None ==> final(self).available_range->Some_0.duration.value
                == 0,
            final(self).target_url == old(self).target_url,
    {
        match &mut self.available_range {
            Some(tr) => {
                tr.start_time.value = start;
            },
            None => {
                self.available_range = Some(TimeRange::new(0, start));
            },
        }
    }

    pub fn media_duration(&self) -> (r: Option<Nanos>)
        ensures
            r == (match self.available_range {
                Some(tr) => Some(tr.duration.value),
                None => None,
            }),
    {
        match &self.available_range {
            Some(tr) => Some(tr.duration.value),
            None => None,
        }
    }

    /// Sets the duration of the available range; `None` forgets the range.
    pub fn set_media_duration(&mut self, duration: Option<Nanos>)
        ensures
            duration is None ==> final(self).available_range is None,
            duration is Some ==> final(self).available_range is Some
                && final(self).available_range->Some_0.duration.value == duration->Some_0,
            duration is Some && old(self).available_range is Some
                ==> final(self).available_range->Some_0.start_time
                == old(self).available_range->Some_0.start_time,
            duration is Some && old(self).available_range is None
                ==> final(self).media_start_spec() == 0,
            final(self).target_url == old(self).target_url,
    {
        match duration {
            Some(v) => {
                match &mut self.available_range {
                    Some(tr) => {
                        tr.duration.value = v;
                    },
                    None => {
                        self.available_range = Some(TimeRange::new(v, 0));
                    },
                }
            },
            None => {
                self.available_range = None;
            },
        }
    }
}

/// A copy of a list of keyed media references, equal to its source.
pub fn copy_references(v: &Vec<(String, MediaReference)>) -> (r: Vec<(String, MediaReference)>)
    ensures
        r@ == v@,
{
    let mut out: Vec<(String, MediaReference)> = Vec::new();
    let mut i: usize = 0;
    while i < v.len()
        invariant
            i <= v@.len(),
            out@ == v@.take(i as int),
        decreases v@.len() - i,
    {
        let k = v[i].0.clone();
        let m = v[i].1.duplicate();
        out.push((k, m));
        assert(out@ =~= v@.take(i as int + 1));
        i = i + 1;
    }
    assert(v@.take(v@.len() as int) =~= v@);
    out
}

/// The keys of a list of keyed media references are pairwise distinct.
pub open spec fn keys_unique(refs: Seq<(String, MediaReference)>) -> bool {
    forall|i: int, j: int|
        0 <= i < refs.len() && 0 <= j < refs.len() && i != j ==> refs[i].0@ != refs[j].0@
}

/// Some entry of the list has the key `k`.
pub open spec fn has_key(refs: Seq<(String, MediaReference)>, k: Seq<char>) -> bool {
    exists|i: int| 0 <= i < refs.len() && refs[i].0@ == k
}

/// The position of the entry with key `k`.
pub fn find_reference(refs: &Vec<(String, MediaReference)>, k: &str) -> (r: Option<usize>)
    ensures
        r is Some ==> r->Some_0 < refs@.len() && refs@[r->Some_0 as int].0@ == k@,
        r is Some ==> forall|j: int| 0 <= j < r->Some_0 ==> refs@[j].0@ != k@,
        r is None <==> !has_key(refs@, k@),
{
    let key = k.to_owned();
    let mut i: usize = 0;
    while i < refs.len()
        invariant
            i <= refs@.len(),
            key@ == k@,
            forall|j: int| 0 <= j < i ==> refs@[j].0@ != k@,
        decreases refs@.len() - i,
    {
        if refs[i].0 == key {
            return Some(i);
        }
        i = i + 1;
    }
    None
}

impl Clip {
    /// Keys are unique and the active key, when set, names a reference.
    pub open spec fn wf(&self) -> bool {
        &&& keys_unique(self.media_references@)
        &&& (self.active_media_reference_key matches Some(k) ==> has_key(
            self.media_references@,
            k@,
        ))
    }

    /// Equal field by field, the references compared as sequences.
    pub open spec fn equiv(&self, o: &Clip) -> bool {
        &&& self.otio_schema == o.otio_schema
        &&& self.name == o.name
        &&& self.source_range == o.source_range
        &&& self.media_references@ == o.media_references@
        &&& self.active_media_reference_key == o.active_media_reference_key
        &&& self.metadata == o.metadata
        &&& self.id == o.id
    }

    /// A copy of `self`.
    pub fn duplicate(&self) -> (r: Clip)
        ensures
            r.equiv(self),
    {
        Clip {
            otio_schema: self.otio_schema.clone(),
            name: copy_opt_string(&self.name),
            source_range: self.source_range.duplicate(),
            media_references: copy_references(&self.media_references),
            active_media_reference_key: copy_opt_string(&self.active_media_reference_key),
            metadata: self.metadata.clone(),
            id: copy_opt_string(&self.id),
        }
    }

    /// A clip that plays `reference`, stored under the default key.
    /// Without `id`, a fresh one is drawn.
    pub fn new_single_media_reference(
        source_range: TimeRange,
        reference: MediaReference,
        name: Option<String>,
        id: Option<String>,
    ) -> (r: Clip)
        ensures
            r.wf(),
            r.source_range == source_range,
            r.name == name,
            r.media_references@.len() == 1,
            r.media_references@[0].0@ == "DEFAULT_MEDIA"@,
            r.media_references@[0].1 == reference,
            opt_view(r.active_media_reference_key) == Some("DEFAULT_MEDIA"@),
            id is Some ==> r.id == id,
            id is None ==> r.id is Some && is_hex_id(r.id->Some_0@),
    {
        let mut refs: Vec<(String, MediaReference)> = Vec::new();
        refs.push((default_media_key(), reference));
        let id = match id {
            Some(s) => s,
            None => fresh_id(),
        };
        let r = Clip {
            otio_schema: default_clip_schema(),
            name,
            source_range,
            media_references: refs,
            active_media_reference_key: Some(default_media_key()),
            metadata: empty_object(),
            id: Some(id),
        };
        assert(has_key(r.media_references@, "DEFAULT_MEDIA"@)) by {
            assert(r.media_references@[0].0@ == "DEFAULT_MEDIA"@);
        }
        r
    }

    /// A clip over the given references. Without `id`, a fresh one is drawn.
    pub fn new(
        source_range: TimeRange,
        media_references: Vec<(String, MediaReference)>,
        active_media_reference_key: Option<String>,
        name: Option<String>,
        id: Option<String>,
    ) -> (r: Clip)
        ensures
            r.source_range == source_range,
            r.media_references == media_references,
            r.active_media_reference_key == active_media_reference_key,
            r.name == name,
            r.wf() == (keys_unique(media_references@) && (active_media_reference_key matches Some(k)
                ==> has_key(media_references@, k@))),
            id is Some ==> r.id == id,
            id is None ==> r.id is Some && is_hex_id(r.id->Some_0@),
    {
        let id = match id {
            Some(s) => s,
            None => fresh_id(),
        };
        Clip {
            otio_schema: default_clip_schema(),
            name,
            source_range,
            media_references,
            active_media_reference_key,
            metadata: empty_object(),
            id: Some(id),
        }
    }
}

impl Gap {
    /// A copy equal to `self`.
    pub fn duplicate(&self) -> (r: Gap)
        ensures
            r == *self,
    {
        Gap {
            otio_schema: self.otio_schema.clone(),
            name: copy_opt_string(&self.name),
            source_range: self.source_range.duplicate(),
            metadata: self.metadata.clone(),
            id: copy_opt_string(&self.id),
        }
    }

    /// A gap of the given duration starting at zero. Without `id`, a fresh one is drawn.
    pub fn new(duration: Nanos, id: Option<String>) -> (r: Gap)
        ensures
            r.source_range.duration.value == duration,
            r.source_range.start_time.value == 0,
            r.name is None,
            id is Some ==> r.id == id,
            id is None ==> r.id is Some && is_hex_id(r.id->Some_0@),
    {
        let id = match id {
            Some(s) => s,
            None => fresh_id(),
        };
        Gap {
            otio_schema: default_gap_schema(),
            name: None,
            source_range: TimeRange::new(duration, 0),
            metadata: empty_object(),
            id: Some(id),
        }
    }

    /// A gap of the given duration with a fresh identifier.
    pub fn make_gap(duration: Nanos) -> (r: Gap)
        ensures
            r.source_range.duration.value == duration,
            r.source_range.start_time.value == 0,
            r.id is Some && is_hex_id(r.id->Some_0@),
    {
        Gap::new(duration, None)
    }
}

impl Item {
    /// The length of the item on its track (may be negative before sanitizing).
    pub open spec fn dur(&self) -> i64 {
        match self {
            Item::Clip(c) => c.source_range.duration.value,
            Item::Gap(g) => g.source_range.duration.value,
        }
    }

    /// `source_range.start_time.value`: the media offset of a clip.
    pub open spec fn start(&self) -> i64 {
        match self {
            Item::Clip(c) => c.source_range.start_time.value,
            Item::Gap(g) => g.source_range.start_time.value,
        }
    }

    pub open spec fn is_gap(&self) -> bool {
        self is Gap
    }

    pub open spec fn id_spec(&self) -> Option<String> {
        match self {
            Item::Clip(c) => c.id,
            Item::Gap(g) => g.id,
        }
    }

    /// The item with its duration replaced.
    pub open spec fn with_dur(self, d: i64) -> Item {
        match self {
            Item::Clip(c) => Item::Clip(
                Clip {
                    source_range: TimeRange {
                        duration: RationalTime { value: d, ..c.source_range.duration },
                        ..c.source_range
                    },
                    ..c
                },
            ),
            Item::Gap(g) => Item::Gap(
                Gap {
                    source_range: TimeRange {
                        duration: RationalTime { value: d, ..g.source_range.duration },
                        ..g.source_range
                    },
                    ..g
                },
            ),
        }
    }

    /// The item with its media offset replaced.
    pub open spec fn with_start(self, s: i64) -> Item {
        match self {
            Item::Clip(c) => Item::Clip(
                Clip {
                    source_range: TimeRange {
                        start_time: RationalTime { value: s, ..c.source_range.start_time },
                        ..c.source_range
                    },
                    ..c
                },
            ),
            Item::Gap(g) => Item::Gap(
                Gap {
                    source_range: TimeRange {
                        start_time: RationalTime { value: s, ..g.source_range.start_time },
                        ..g.source_range
                    },
                    ..g
                },
            ),
        }
    }

    /// The item with its identifier replaced.
    pub open spec fn with_id(self, id: Option<String>) -> Item {
        match self {
            Item::Clip(c) => Item::Clip(Clip { id, ..c }),
            Item::Gap(g) => Item::Gap(Gap { id, ..g }),
        }
    }

    /// Equal, the media references of clips compared as sequences.
    pub open spec fn equiv(&self, o: &Item) -> bool {
        match (self, o) {
            (Item::Clip(a), Item::Clip(b)) => a.equiv(b),
            (Item::Gap(a), Item::Gap(b)) => a == b,
            _ => false,
        }
    }

    /// A copy of `self`.
    pub fn duplicate(&self) -> (r: Item)
        ensures
            r.equiv(self),
    {
        match self {
            Item::Clip(c) => Item::Clip(c.duplicate()),
            Item::Gap(g) => Item::Gap(g.duplicate()),
        }
    }

    pub fn duration(&self) -> (r: Nanos)
        ensures
            r == self.dur(),
    {
        match self {
            Item::Clip(c) => c.source_range.duration.value,
            Item::Gap(g) => g.source_range.duration.value,
        }
    }

    pub fn set_duration(&mut self, d: Nanos)
        ensures
            *final(self) == old(self).with_dur(d),
    {
        match self {
            Item::Clip(c) => {
                c.source_range.duration.value = d;
            },
            Item::Gap(g) => {
                g.source_range.duration.value = d;
            },
        }
    }

    /// Sets `source_range.start_time.value`.
    pub fn set_start(&mut self, v: Nanos)
        ensures
            *final(self) == old(self).with_start(v),
    {
        match self {
            Item::Clip(c) => {
                c.source_range.start_time.value = v;
            },
            Item::Gap(g) => {
                g.source_range.start_time.value = v;
            },
        }
    }

    /// Replaces the identifier.
    pub fn replace_id(&mut self, id: Option<String>)
        ensures
            *final(self) == old(self).with_id(id),
    {
        match self {
            Item::Clip(c) => {
                c.id = id;
            },
            Item::Gap(g) => {
                g.id = id;
            },
        }
    }

    pub fn media_offset(&self) -> (r: Nanos)
        ensures
            r == self.start(),
    {
        match self {
            Item::Clip(c) => c.source_range.start_time.value,
            Item::Gap(g) => g.source_range.start_time.value,
        }
    }

    pub fn get_source_range(&self) -> (r: TimeRange)
        ensures
            r == (match self {
                Item::Clip(c) => c.source_range,
                Item::Gap(g) => g.source_range,
            }),
    {
        match self {
            Item::Clip(c) => c.source_range.duplicate(),
            Item::Gap(g) => g.source_range.duplicate(),
        }
    }

    pub fn set_source_range(&mut self, source_range: TimeRange)
        ensures
            *final(self) == (match *old(self) {
                Item::Clip(c) => Item::Clip(Clip { source_range, ..c }),
                Item::Gap(g) => Item::Gap(Gap { source_range, ..g }),
            }),
            final(self).dur() == source_range.duration.value,
            final(self).start() == source_range.start_time.value,
    {
        match self {
            Item::Clip(c) => {
                c.source_range = source_range;
            },
            Item::Gap(g) => {
                g.source_range = source_range;
            },
        }
    }

    /// The active reference key of a clip; `None` for a gap.
    pub fn get_active_media_reference_key(&self) -> (r: Option<String>)
        ensures
            r == (match self {
                Item::Clip(c) => c.active_media_reference_key,
                Item::Gap(_) => None,
            }),
    {
        match self {
            Item::Clip(c) => copy_opt_string(&c.active_media_reference_key),
            Item::Gap(_) => None,
        }
    }

    /// Sets the active reference key of a clip; a gap is left as it is.
    pub fn set_active_media_reference_key(&mut self, key: Option<String>)
        ensures
            old(self).is_gap() ==> *final(self) == *old(self),
            !old(self).is_gap() ==> final(self).is_gap() == old(self).is_gap() && (match *final(self) {
                Item::Clip(c) => c.active_media_reference_key == key,
                Item::Gap(_) => false,
            }),
            final(self).dur() == old(self).dur(),
            final(self).id_spec() == old(self).id_spec(),
    {
        if let Item::Clip(c) = self {
            c.active_media_reference_key = key;
        }
    }

    /// The media references of a clip; empty for a gap.
    pub fn get_media_references(&self) -> (r: Vec<(String, MediaReference)>)
        ensures
            r@ == (match self {
                Item::Clip(c) => c.media_references@,
                Item::Gap(_) => Seq::empty(),
            }),
    {
        match self {
            Item::Clip(c) => copy_references(&c.media_references),
            Item::Gap(_) => Vec::new(),
        }
    }

    /// Sets the media references of a clip; a gap is left as it is.
    pub fn set_media_references(&mut self, references: Vec<(String, MediaReference)>)
        ensures
            old(self).is_gap() ==> *final(self) == *old(self),
            !old(self).is_gap() ==> (match *final(self) {
                Item::Clip(c) => c.media_references == references,
                Item::Gap(_) => false,
            }),
            final(self).dur() == old(self).dur(),
            final(self).id_spec() == old(self).id_spec(),
    {
        if let Item::Clip(c) = self {
            c.media_references = references;
        }
    }

    pub fn is_gap_item(&self) -> (r: bool)
        ensures
            r == self.is_gap(),
    {
        match self {
            Item::Clip(_) => false,
            Item::Gap(_) => true,
        }
    }
}

} // verus!
