use tellers_timeline_core::{
    Clip, EditError, InsertPolicy, Item, MediaReference, Nanos, OverlapPolicy, RationalTime, TimeRange, Track,
    NANOS_PER_SECOND,
};

const S: i64 = NANOS_PER_SECOND;

fn make_clip(duration: Nanos, media_start: Nanos) -> Item {
    let sr = TimeRange {
        otio_schema: "TimeRange.1".to_string(),
        duration: RationalTime { otio_schema: "RationalTime.1".to_string(), rate: S, value: duration },
        start_time: RationalTime { otio_schema: "RationalTime.1".to_string(), rate: S, value: media_start },
    };
    let refs: Vec<(String, MediaReference)> = vec![(
        "DEFAULT_MEDIA".to_string(),
        MediaReference {
            otio_schema: "ExternalReference.1".to_string(),
            target_url: "mem://".to_string(),
            available_range: None,
            name: None,
            available_image_bounds: None,
            metadata: serde_json::Value::Null,
        },
    )];
    Item::Clip(Clip {
        otio_schema: "Clip.2".to_string(),
        name: None,
        source_range: sr,
        media_references: refs,
        active_media_reference_key: Some("DEFAULT_MEDIA".to_string()),
        metadata: serde_json::Value::Null,
        id: None,
    })
}

fn durations(track: &Track) -> Vec<Nanos> {
    track.items.iter().map(|i| i.duration()).collect()
}

#[test]
fn insert_before_after_or_boundary() {
    let mut track = Track::default();
    track.append(make_clip(4 * S, 0));
    track.append(make_clip(6 * S, 0));

    // Insert before inside first clip -> snaps to its start index
    let _ = track.insert_at_time(1 * S, make_clip(1 * S, 0), OverlapPolicy::Push, InsertPolicy::InsertBefore);
    assert!(matches!(track.items[0], Item::Clip(_)));

    // Insert after inside first clip -> index after first
    let _ = track.insert_at_time(S + S / 2, make_clip(1 * S, 0), OverlapPolicy::Push, InsertPolicy::InsertAfter);
    assert!(matches!(track.items[2], Item::Clip(_)));

    // Insert before or after: choose closer boundary
    let before_len = track.items.len();
    let _ = track.insert_at_time(
        3 * S + 9 * S / 10,
        make_clip(S / 2, 0),
        OverlapPolicy::Push,
        InsertPolicy::InsertBeforeOrAfter,
    );
    assert_eq!(track.items.len(), before_len + 1);
}

#[test]
fn insert_split_and_override() {
    let mut track = Track::default();
    track.append(make_clip(5 * S, 0));
    track.append(make_clip(5 * S, 0));

    let _ = track.insert_at_time(3 * S, make_clip(4 * S, 0), OverlapPolicy::Override, InsertPolicy::SplitAndInsert);

    let idx = track.get_item_at_time(3 * S + S / 10).unwrap();
    match &track.items[idx] {
        Item::Clip(c) => assert_eq!(c.source_range.duration.value, 4 * S),
        _ => panic!("expected clip inserted with override"),
    }
}

#[test]
fn insert_split_and_override_at_zero() {
    let mut track = Track::default();
    track.append(make_clip(5 * S, 0));

    let _ = track.insert_at_time(0, make_clip(4 * S, 0), OverlapPolicy::Override, InsertPolicy::SplitAndInsert);
    assert_eq!(track.items.len(), 2);
    assert_eq!(track.items[0].duration(), 4 * S);
    assert_eq!(track.items[1].duration(), 1 * S);
    match (&track.items[0], &track.items[1]) {
        (Item::Clip(c0), Item::Clip(c1)) => {
            assert_eq!(c0.source_range.duration.value, 4 * S);
            assert_eq!(c1.source_range.duration.value, 1 * S);
        }
        _ => panic!("expected two clips after insert"),
    }
}

#[test]
fn override_across_boundary_keeps_both_sides() {
    let mut track = Track::default();
    track.append(make_clip(5 * S, 0));
    track.append(make_clip(5 * S, 0));
    let _ = track.insert_at_time(3 * S, make_clip(4 * S, 0), OverlapPolicy::Override, InsertPolicy::SplitAndInsert);
    assert_eq!(durations(&track), vec![3 * S, 4 * S, 3 * S]);
    let holders: Vec<usize> = (0..track.items.len())
        .filter(|&i| {
            let st = track.start_time_of_item(i);
            st <= 3 * S + 1 && 3 * S + 1 < st + track.items[i].duration()
        })
        .collect();
    assert_eq!(holders.len(), 1);
    assert_eq!(track.items[holders[0]].duration(), 4 * S);
    // The right part of the second clip starts 2 s into its media.
    match &track.items[2] {
        Item::Clip(c) => assert_eq!(c.source_range.start_time.value, 2 * S),
        _ => panic!("expected a clip"),
    }
    assert_eq!(track.total_duration(), 10 * S);
}

#[test]
fn push_split_and_insert_shifts_the_tail() {
    let mut track = Track::default();
    track.append(make_clip(10 * S, 0));
    track.append(make_clip(5 * S, 0));
    let r = track.insert_at_time(4 * S, make_clip(2 * S, 0), OverlapPolicy::Push, InsertPolicy::SplitAndInsert);
    assert_eq!(r, Ok(()));
    assert_eq!(durations(&track), vec![4 * S, 2 * S, 6 * S, 5 * S]);
    assert!(track.items.iter().all(|i| matches!(i, Item::Clip(_))));
    assert_eq!(track.total_duration(), 17 * S);
    match &track.items[2] {
        Item::Clip(c) => assert_eq!(c.source_range.start_time.value, 4 * S),
        _ => panic!("expected a clip"),
    }
}

#[test]
fn push_increases_total_by_item_duration() {
    let mut track = Track::default();
    track.append(make_clip(3 * S, 0));
    track.append(make_clip(2 * S, 0));
    for (t, p) in [
        (0, InsertPolicy::InsertBefore),
        (S, InsertPolicy::InsertAfter),
        (4 * S, InsertPolicy::InsertBeforeOrAfter),
        (S + 7, InsertPolicy::SplitAndInsert),
    ] {
        let before = track.total_duration();
        let _ = track.insert_at_time(t, make_clip(S, 0), OverlapPolicy::Push, p);
        assert_eq!(track.total_duration(), before + S);
    }
}

#[test]
fn insert_negative_time_is_refused() {
    let mut track = Track::default();
    track.append(make_clip(3 * S, 0));
    let r = track.insert_at_time(-1, make_clip(S, 0), OverlapPolicy::Push, InsertPolicy::InsertBefore);
    assert_eq!(r, Err(EditError::InvalidTime));
    assert_eq!(durations(&track), vec![3 * S]);
}

#[test]
fn insert_past_end_fills_with_gap() {
    let mut track = Track::default();
    track.append(make_clip(3 * S, 0));
    let r = track.insert_at_time(5 * S, make_clip(S, 0), OverlapPolicy::Override, InsertPolicy::InsertBefore);
    assert_eq!(r, Ok(()));
    assert_eq!(durations(&track), vec![3 * S, 2 * S, S]);
    assert!(matches!(track.items[1], Item::Gap(_)));
}

#[test]
fn insert_at_end_boundary_appends() {
    let mut track = Track::default();
    track.append(make_clip(3 * S, 0));
    for p in [InsertPolicy::InsertBefore, InsertPolicy::InsertAfter, InsertPolicy::InsertBeforeOrAfter] {
        let n = track.items.len();
        let t = track.total_duration();
        let _ = track.insert_at_time(t, make_clip(S, 0), OverlapPolicy::Push, p);
        assert_eq!(track.items.len(), n + 1);
    }
}

#[test]
fn before_or_after_prefers_start_on_tie() {
    let mut track = Track::default();
    track.append(make_clip(4 * S, 0));
    let _ = track.insert_at_time(2 * S, make_clip(S, 7), OverlapPolicy::Push, InsertPolicy::InsertBeforeOrAfter);
    assert_eq!(track.items[0].duration(), S);
    let mut t2 = Track::default();
    t2.append(make_clip(4 * S, 0));
    let _ = t2.insert_at_time(2 * S + 1, make_clip(S, 7), OverlapPolicy::Push, InsertPolicy::InsertBeforeOrAfter);
    assert_eq!(t2.items[1].duration(), S);
}

#[test]
fn insert_at_index_clamps_and_overrides() {
    let mut track = Track::default();
    track.append(make_clip(2 * S, 0));
    track.insert_at_index(99, make_clip(S, 0), OverlapPolicy::Push);
    assert_eq!(durations(&track), vec![2 * S, S]);
    track.insert_at_index(0, make_clip(3 * S, 0), OverlapPolicy::Override);
    assert_eq!(durations(&track), vec![3 * S]);
}

#[test]
fn override_keeps_earlier_times_and_covers_the_new_span() {
    let mut track = Track::default();
    track.append(make_clip(5 * S, 0));
    track.append(make_clip(5 * S, 0));
    let probes_before = [0, S, 3 * S - 1];
    let before: Vec<Option<usize>> = probes_before.iter().map(|&t| track.get_item_at_time(t)).collect();
    let _ = track.insert_at_time(3 * S, make_clip(4 * S, 9 * S), OverlapPolicy::Override, InsertPolicy::SplitAndInsert);
    let after: Vec<Option<usize>> = probes_before.iter().map(|&t| track.get_item_at_time(t)).collect();
    assert_eq!(before, after);
    for t in [3 * S, 5 * S, 7 * S - 1] {
        let i = track.get_item_at_time(t).unwrap();
        assert_eq!(track.items[i].media_offset(), 9 * S);
    }
}
