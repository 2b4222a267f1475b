use tellers_timeline_core::{
    insert_policy_from_str, overlap_policy_from_str, track_kind_from_str, validate_timeline, Gap, InsertPolicy, Item,
    OverlapPolicy, Timeline, Track, TrackKind, ValidationError,
};

#[test]
fn overlap_policy_strings() {
    assert_eq!(overlap_policy_from_str("push"), OverlapPolicy::Push);
    assert_eq!(overlap_policy_from_str("PuSh"), OverlapPolicy::Push);
    assert_eq!(overlap_policy_from_str("override"), OverlapPolicy::Override);
    assert_eq!(overlap_policy_from_str("keep"), OverlapPolicy::Override);
    assert_eq!(overlap_policy_from_str(""), OverlapPolicy::Override);
}

#[test]
fn insert_policy_strings() {
    assert_eq!(insert_policy_from_str("split"), InsertPolicy::SplitAndInsert);
    assert_eq!(insert_policy_from_str("Split_And_Insert"), InsertPolicy::SplitAndInsert);
    assert_eq!(insert_policy_from_str("before"), InsertPolicy::InsertBefore);
    assert_eq!(insert_policy_from_str("INSERT_BEFORE"), InsertPolicy::InsertBefore);
    assert_eq!(insert_policy_from_str("after"), InsertPolicy::InsertAfter);
    assert_eq!(insert_policy_from_str("insert_after"), InsertPolicy::InsertAfter);
    assert_eq!(insert_policy_from_str("whatever"), InsertPolicy::InsertBeforeOrAfter);
}

#[test]
fn track_kind_strings() {
    assert_eq!(track_kind_from_str("VIDEO"), TrackKind::Video);
    assert_eq!(track_kind_from_str("audio"), TrackKind::Audio);
    assert_eq!(track_kind_from_str("subtitles"), TrackKind::Other);
    assert_eq!(tellers_timeline_core::policy::parse_track_kind("Other"), Some(TrackKind::Other));
    assert_eq!(tellers_timeline_core::policy::parse_track_kind("sub"), None);
    assert_eq!(TrackKind::Audio.name(), "audio");
}

#[test]
fn validator_reports_each_negative_duration() {
    let mut tl = Timeline::default();
    let mut a = Track::default();
    a.append(Item::Gap(Gap::make_gap(-1)));
    a.append(Item::Gap(Gap::make_gap(5)));
    let mut b = Track::default();
    b.append(Item::Gap(Gap::make_gap(-7)));
    tl.add_track(a);
    tl.add_track(b);
    let errs = validate_timeline(&tl);
    assert_eq!(errs, vec![ValidationError::NegativeDuration, ValidationError::NegativeDuration]);
    assert_eq!(errs[0].message(), "negative duration for an item");
    tl.sanitize();
    assert!(validate_timeline(&tl).is_empty());
}
