//! Read-only inspection of a timeline.
use vstd::prelude::*;

use crate::model::Item;
use crate::track::{Timeline, Track};

verus! {

/// A problem found in a timeline.
#[derive(Debug, PartialEq, Eq, Structural, Clone, Copy)]
pub enum ValidationError {
    /// An item has a negative duration.
    NegativeDuration,
    /// Items of a track overlap; tracks are gapless sequences, so this is never reported.
    Overlap,
    /// Items of a track are out of order; tracks are gapless sequences, so this is never reported.
    NotSorted,
}

impl ValidationError {
    /// A human-readable description.
    pub fn message(&self) -> (r: String) {
        match self {
            ValidationError::NegativeDuration => "negative duration for an item".to_string(),
            ValidationError::Overlap => "overlap in track".to_string(),
            ValidationError::NotSorted => "items not sorted by start in a track".to_string(),
        }
    }
}

/// The number of items with a negative duration.
pub open spec fn negative_count(s: Seq<Item>) -> nat
    decreases s.len(),
{
    if s.len() == 0 {
        0
    } else {
        negative_count(s.drop_last()) + if s.last().dur() < 0 { 1nat } else { 0nat }
    }
}

/// The number of items with a negative duration over all tracks.
pub open spec fn tracks_negative_count(ts: Seq<Track>) -> nat
    decreases ts.len(),
{
    if ts.len() == 0 {
        0
    } else {
        tracks_negative_count(ts.drop_last()) + negative_count(ts.last().items@)
    }
}

/// One `NegativeDuration` for each item whose duration is negative.
pub fn validate_timeline(tl: &Timeline) -> (r: Vec<ValidationError>)
    ensures
        r@.len() == tracks_negative_count(tl.tracks.children@),
        forall|i: int| 0 <= i < r@.len() ==> r@[i] == ValidationError::NegativeDuration,
{
    let ts = &tl.tracks.children;
    let mut errors: Vec<ValidationError> = Vec::new();
    let mut i: usize = 0;
    while i < ts.len()
        invariant
            i <= ts@.len(),
            errors@.len() == tracks_negative_count(ts@.take(i as int)),
            forall|k: int| 0 <= k < errors@.len() ==> errors@[k] == ValidationError::NegativeDuration,
        decreases ts@.len() - i,
    {
        let items = &ts[i].items;
        let mut j: usize = 0;
        let ghost base = errors@.len();
        while j < items.len()
            invariant
                j <= items@.len(),
                errors@.len() == base + negative_count(items@.take(j as int)),
                forall|k: int| 0 <= k < errors@.len() ==> errors@[k] == ValidationError::NegativeDuration,
            decreases items@.len() - j,
        {
            assert(items@.take(j as int + 1).drop_last() =~= items@.take(j as int));
            if items[j].duration() < 0 {
                errors.push(ValidationError::NegativeDuration);
            }
            j = j + 1;
        }
        assert(items@.take(items@.len() as int) =~= items@);
        assert(ts@.take(i as int + 1).drop_last() =~= ts@.take(i as int));
        i = i + 1;
    }
    assert(ts@.take(ts@.len() as int) =~= ts@);
    errors
}

} // verus!
