use tellers_timeline_core::{Clip, Gap, Item, MediaReference, Nanos, RationalTime, TimeRange, Track, NANOS_PER_SECOND};

const S: i64 = NANOS_PER_SECOND;

fn make_clip(duration: Nanos, media_start: Nanos) -> Item {
    let sr = TimeRange {
        otio_schema: "TimeRange.1".to_string(),
        duration: RationalTime { otio_schema: "RationalTime.1".to_string(), rate: S, value: duration },
        start_time: RationalTime { otio_schema: "RationalTime.1".to_string(), rate: S, value: media_start },
    };
    let refs: Vec<(String, MediaReference)> = vec![(
        "DEFAULT_MEDIA".to_string(),
        MediaReference {
            otio_schema: "ExternalReference.1".to_string(),
            target_url: "mem://".to_string(),
            available_range: None,
            name: None,
            available_image_bounds: None,
            metadata: serde_json::Value::Null,
        },
    )];
    Item::Clip(Clip {
        otio_schema: "Clip.2".to_string(),
        name: None,
        source_range: sr,
        media_references: refs,
        active_media_reference_key: Some("DEFAULT_MEDIA".to_string()),
        metadata: serde_json::Value::Null,
        id: None,
    })
}

#[test]
fn split_clip_basic() {
    let mut track = Track::default();
    track.append(make_clip(10 * S, 0));

    track.split_at_time(3 * S);

    assert_eq!(track.items.len(), 2);
    match (&track.items[0], &track.items[1]) {
        (Item::Clip(c0), Item::Clip(c1)) => {
            assert_eq!(c0.source_range.duration.value, 3 * S);
            assert_eq!(c1.source_range.duration.value, 7 * S);
            assert_eq!(c1.source_range.start_time.value, 3 * S);
        }
        _ => panic!("expected two clips after split"),
    }
}

#[test]
fn split_gap_basic() {
    let mut track = Track::default();
    track.append(Item::Gap(Gap::make_gap(5 * S)));

    track.split_at_time(2 * S);

    assert_eq!(track.items.len(), 2);
    match (&track.items[0], &track.items[1]) {
        (Item::Gap(g0), Item::Gap(g1)) => {
            assert_eq!(g0.source_range.duration.value, 2 * S);
            assert_eq!(g1.source_range.duration.value, 3 * S);
        }
        _ => panic!("expected two gaps after split"),
    }
}

#[test]
fn split_at_boundary_noop() {
    let mut track = Track::default();
    track.append(make_clip(5 * S, 0));

    track.split_at_time(0);
    assert_eq!(track.items.len(), 1);

    track.split_at_time(5 * S);
    assert_eq!(track.items.len(), 1);
}

#[test]
fn split_keeps_left_id_and_gives_right_a_fresh_one() {
    let mut track = Track::default();
    let mut c = make_clip(10 * S, 2 * S);
    if let Item::Clip(ref mut inner) = c {
        inner.id = Some("left-id".to_string());
    }
    track.append(c);
    track.split_at_time(4 * S);
    assert_eq!(track.items.len(), 2);
    match (&track.items[0], &track.items[1]) {
        (Item::Clip(c0), Item::Clip(c1)) => {
            assert_eq!(c0.id.as_deref(), Some("left-id"));
            let rid = c1.id.clone().expect("right piece has an id");
            assert_eq!(rid.len(), 12);
            assert!(rid.chars().all(|ch| ch.is_ascii_digit() || ('a'..='f').contains(&ch)));
            assert_eq!(c0.source_range.start_time.value, 2 * S);
            assert_eq!(c1.source_range.start_time.value, 6 * S);
            assert_eq!(c0.media_references, c1.media_references);
        }
        _ => panic!("expected two clips after split"),
    }
    assert_eq!(track.total_duration(), 10 * S);
}

#[test]
fn split_within_tolerance_of_an_end_is_noop() {
    let mut track = Track::default();
    track.append(make_clip(5 * S, 0));
    track.split_at_time(1);
    assert_eq!(track.items.len(), 1);
    track.split_at_time(5 * S - 1);
    assert_eq!(track.items.len(), 1);
    track.split_at_time(2);
    assert_eq!(track.items.len(), 2);
}

#[test]
fn split_gap_keeps_its_start() {
    let mut track = Track::default();
    track.append(Item::Gap(Gap::make_gap(5 * S)));
    track.split_at_time(2 * S);
    match &track.items[1] {
        Item::Gap(g) => assert_eq!(g.source_range.start_time.value, 0),
        _ => panic!("expected a gap"),
    }
}
