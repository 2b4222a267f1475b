use tellers_timeline_core::{Clip, Item, MediaReference, Nanos, OverlapPolicy, RationalTime, TimeRange, Track, NANOS_PER_SECOND};

const S: i64 = NANOS_PER_SECOND;

fn make_clip(duration: Nanos, media_start: Nanos) -> Item {
    let sr = TimeRange {
        otio_schema: "TimeRange.1".to_string(),
        duration: RationalTime { otio_schema: "RationalTime.1".to_string(), rate: S, value: duration },
        start_time: RationalTime { otio_schema: "RationalTime.1".to_string(), rate: S, value: media_start },
    };
    let refs: Vec<(String, MediaReference)> = vec![(
        "DEFAULT_MEDIA".to_string(),
        MediaReference {
            otio_schema: "ExternalReference.1".to_string(),
            target_url: "mem://".to_string(),
            available_range: None,
            name: None,
            available_image_bounds: None,
            metadata: serde_json::Value::Null,
        },
    )];
    Item::Clip(Clip {
        otio_schema: "Clip.2".to_string(),
        name: None,
        source_range: sr,
        media_references: refs,
        active_media_reference_key: Some("DEFAULT_MEDIA".to_string()),
        metadata: serde_json::Value::Null,
        id: None,
    })
}


#[test]
fn resize_moves_and_sets_duration_with_override() {
    let mut track = Track::default();
    // Layout: [c0:4][c1:6]
    track.append(make_clip(4 * S, 0));
    track.append(make_clip(6 * S, 0));

    let ok = track.resize_item(0, 3 * S, 5 * S, OverlapPolicy::Override, false);
    assert!(ok);

    let idx = track.get_item_at_time(3 * S + 1000).unwrap();
    match &track.items[idx] {
        Item::Clip(c) => assert_eq!(c.source_range.duration.value, 5 * S),
        _ => panic!("expected clip after resize"),
    }

    let total: Nanos = track.items.iter().map(|i| i.duration().max(0)).sum();
    assert!(total >= 5 * S);
}

#[test]
fn resize_push_inserts_without_overriding() {
    let mut track = Track::default();
    track.append(make_clip(4 * S, 0));
    track.append(make_clip(6 * S, 0));

    let ok = track.resize_item(1, 2 * S, 2 * S, OverlapPolicy::Push, false);
    assert!(ok);

    let idx = track.get_item_at_time(2 * S + 1000).unwrap();
    match &track.items[idx] {
        Item::Clip(c) => assert_eq!(c.source_range.duration.value, 2 * S),
        _ => panic!("expected clip after resize with push"),
    }
    assert_eq!(track.start_time_of_item(idx), 2 * S);
}

#[test]
fn resize_clamps_to_remaining_media() {
    let mut track = Track::default();
    let mut c = make_clip(2 * S, 3 * S);
    if let Item::Clip(ref mut inner) = c {
        inner.media_references[0].1.set_media_duration(Some(5 * S));
    }
    track.append(c);
    assert!(track.resize_item(0, 0, 10 * S, OverlapPolicy::Push, true));
    assert_eq!(track.items.len(), 1);
    assert_eq!(track.items[0].duration(), 2 * S);
    assert!(track.resize_item(0, 0, 10 * S, OverlapPolicy::Push, false));
    assert_eq!(track.items[0].duration(), 10 * S);
}

#[test]
fn resize_refuses_bad_index_and_negative_start() {
    let mut track = Track::default();
    track.append(make_clip(4 * S, 0));
    assert!(!track.resize_item(3, 0, S, OverlapPolicy::Push, false));
    assert!(!track.resize_item(0, -1, S, OverlapPolicy::Push, false));
    assert_eq!(track.items[0].duration(), 4 * S);
}
