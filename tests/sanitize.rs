use tellers_timeline_core::{Clip, Gap, Item, MediaReference, TimeRange, Timeline, Track, NANOS_PER_SECOND};

const S: i64 = NANOS_PER_SECOND;

fn clip(duration: i64) -> Item {
    Item::Clip(Clip::new_single_media_reference(
        TimeRange::new(duration, 0),
        MediaReference {
            otio_schema: "ExternalReference.1".to_string(),
            target_url: "mem://".to_string(),
            available_range: None,
            name: None,
            available_image_bounds: None,
            metadata: serde_json::Value::Null,
        },
        None,
        None,
    ))
}

fn gap(duration: i64) -> Item {
    Item::Gap(Gap::new(duration, None))
}

fn shape(track: &Track) -> Vec<(bool, i64)> {
    track.items.iter().map(|i| (i.is_gap_item(), i.duration())).collect()
}

#[test]
fn sanitize_clamps_drops_and_merges() {
    let mut track = Track::default();
    track.append(gap(S));
    track.append(gap(2 * S));
    track.append(clip(0));
    track.append(clip(-4));
    track.append(gap(S));
    track.append(clip(3 * S));
    track.sanitize();
    assert_eq!(shape(&track), vec![(true, 4 * S), (false, 3 * S)]);
}

#[test]
fn sanitize_is_idempotent() {
    let mut track = Track::default();
    track.append(clip(S));
    track.append(gap(0));
    track.append(gap(S));
    track.append(clip(-1));
    track.append(gap(2 * S));
    track.append(clip(S));
    track.sanitize();
    let once = track.clone();
    track.sanitize();
    assert_eq!(track, once);
    assert_eq!(shape(&track), vec![(false, S), (true, 3 * S), (false, S)]);
}

#[test]
fn sanitized_track_has_no_empty_items_or_adjacent_gaps() {
    let mut track = Track::default();
    for d in [S, -S, 0, 2 * S] {
        track.append(gap(d));
        track.append(clip(d));
    }
    track.sanitize();
    for w in track.items.windows(2) {
        assert!(!(w[0].is_gap_item() && w[1].is_gap_item()));
    }
    assert!(track.items.iter().all(|i| i.duration() > 0));
}

#[test]
fn clamp_and_remove_steps() {
    let mut track = Track::default();
    track.append(clip(-3));
    track.append(clip(2));
    track.clamp_negative_durations();
    assert_eq!(shape(&track), vec![(false, 0), (false, 2)]);
    track.remove_zero_length_items();
    assert_eq!(shape(&track), vec![(false, 2)]);
}

#[test]
fn merge_adjacent_gaps_keeps_first_gap_identity() {
    let mut track = Track::default();
    let g = Gap::new(S, Some("first".to_string()));
    track.append(Item::Gap(g));
    track.append(gap(S));
    track.append(gap(S));
    track.merge_adjacent_gaps();
    assert_eq!(track.items.len(), 1);
    match &track.items[0] {
        Item::Gap(g) => {
            assert_eq!(g.id.as_deref(), Some("first"));
            assert_eq!(g.source_range.duration.value, 3 * S);
        }
        _ => panic!("expected a gap"),
    }
}

#[test]
fn timeline_sanitize_covers_every_track() {
    let mut tl = Timeline::default();
    let mut a = Track::default();
    a.append(gap(S));
    a.append(gap(S));
    let mut b = Track::default();
    b.append(clip(0));
    tl.add_track(a);
    tl.add_track(b);
    tl.sanitize();
    assert_eq!(shape(&tl.tracks.children[0]), vec![(true, 2 * S)]);
    assert!(tl.tracks.children[1].items.is_empty());
}
