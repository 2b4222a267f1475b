//! Policies and track kinds named by case-insensitive strings.
use vstd::prelude::*;
use vstd::string::*;

use crate::edit::{InsertPolicy, OverlapPolicy};
use crate::track::TrackKind;

verus! {

/// ASCII upper-case letters in lower case; every other character unchanged.
pub open spec fn lower_char(c: char) -> char {
    if 'A' <= c && c <= 'Z' { ((c as u8) + 32) as char } else { c }
}

/// The string with its ASCII letters in lower case.
pub open spec fn ascii_lower(s: Seq<char>) -> Seq<char> {
    s.map_values(|c: char| lower_char(c))
}

fn lower(c: char) -> (r: char)
    ensures
        r == lower_char(c),
{
    if 'A' <= c && c <= 'Z' { ((c as u8) + 32) as char } else { c }
}

/// Whether `s`, with its ASCII letters in lower case, is `lit`.
pub fn lower_eq(s: &str, lit: &str) -> (r: bool)
    ensures
        r == (ascii_lower(s@) == lit@),
{
    let n = s.unicode_len();
    if n != lit.unicode_len() {
        return false;
    }
    let mut i: usize = 0;
    while i < n
        invariant
            n == s@.len(),
            n == lit@.len(),
            i <= n,
            forall|j: int| 0 <= j < i ==> lower_char(s@[j]) == lit@[j],
        decreases n - i,
    {
        if lower(s.get_char(i)) != lit.get_char(i) {
            assert(ascii_lower(s@)[i as int] != lit@[i as int]);
            return false;
        }
        i = i + 1;
    }
    assert(ascii_lower(s@) =~= lit@);
    true
}

/// `push` names Push; every other string names Override.
pub open spec fn overlap_policy_of(s: Seq<char>) -> OverlapPolicy {
    if ascii_lower(s) == "push"@ {
        OverlapPolicy::Push
    } else {
        OverlapPolicy::Override
    }
}

/// `split`/`split_and_insert`, `before`/`insert_before`, `after`/`insert_after`;
/// every other string names InsertBeforeOrAfter.
pub open spec fn insert_policy_of(s: Seq<char>) -> InsertPolicy {
    let l = ascii_lower(s);
    if l == "split_and_insert"@ || l == "split"@ {
        InsertPolicy::SplitAndInsert
    } else if l == "insert_before"@ || l == "before"@ {
        InsertPolicy::InsertBefore
    } else if l == "insert_after"@ || l == "after"@ {
        InsertPolicy::InsertAfter
    } else {
        InsertPolicy::InsertBeforeOrAfter
    }
}

/// The overlap policy a string names, ignoring ASCII case.
pub fn overlap_policy_from_str(s: &str) -> (r: OverlapPolicy)
    ensures
        r == overlap_policy_of(s@),
{
    if lower_eq(s, "push") {
        OverlapPolicy::Push
    } else {
        OverlapPolicy::Override
    }
}

/// The insert policy a string names, ignoring ASCII case.
pub fn insert_policy_from_str(s: &str) -> (r: InsertPolicy)
    ensures
        r == insert_policy_of(s@),
{
    if lower_eq(s, "split_and_insert") || lower_eq(s, "split") {
        InsertPolicy::SplitAndInsert
    } else if lower_eq(s, "insert_before") || lower_eq(s, "before") {
        InsertPolicy::InsertBefore
    } else if lower_eq(s, "insert_after") || lower_eq(s, "after") {
        InsertPolicy::InsertAfter
    } else {
        InsertPolicy::InsertBeforeOrAfter
    }
}

/// The track kind a string names exactly, ignoring ASCII case.
pub open spec fn track_kind_of(s: Seq<char>) -> Option<TrackKind> {
    let l = ascii_lower(s);
    if l == "video"@ {
        Some(TrackKind::Video)
    } else if l == "audio"@ {
        Some(TrackKind::Audio)
    } else if l == "other"@ {
        Some(TrackKind::Other)
    } else {
        None
    }
}

/// The track kind named by `video`, `audio` or `other`, ignoring ASCII case;
/// `None` for any other string.
pub fn parse_track_kind(s: &str) -> (r: Option<TrackKind>)
    ensures
        r == track_kind_of(s@),
{
    if lower_eq(s, "video") {
        Some(TrackKind::Video)
    } else if lower_eq(s, "audio") {
        Some(TrackKind::Audio)
    } else if lower_eq(s, "other") {
        Some(TrackKind::Other)
    } else {
        None
    }
}

/// The track kind a string names, ignoring ASCII case; Other when it names none.
pub fn track_kind_from_str(s: &str) -> (r: TrackKind)
    ensures
        track_kind_of(s@) is Some ==> r == track_kind_of(s@)->Some_0,
        track_kind_of(s@) is None ==> r == TrackKind::Other,
{
    match parse_track_kind(s) {
        Some(k) => k,
        None => TrackKind::Other,
    }
}

impl TrackKind {
    /// The lower-case name of the kind.
    pub fn name(&self) -> (r: String)
        ensures
            track_kind_of(r@) == Some(*self),
    {
        let r = match self {
            TrackKind::Video => "video".to_string(),
            TrackKind::Audio => "audio".to_string(),
            TrackKind::Other => "other".to_string(),
        };
        proof {
            reveal_strlit("video");
            reveal_strlit("audio");
            reveal_strlit("other");
            assert(ascii_lower(r@) =~= r@);
            assert("video"@ != "audio"@ && "video"@ != "other"@ && "audio"@ != "other"@) by {
                assert("video"@[0] != "audio"@[0]);
                assert("video"@[0] != "other"@[0]);
                assert("audio"@[0] != "other"@[0]);
            }
        }
        r
    }
}

} // verus!
