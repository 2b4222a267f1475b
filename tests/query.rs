use tellers_timeline_core::{Clip, Gap, IdMetadataExt, Item, MediaReference, TimeRange, Track, NANOS_PER_SECOND};

const S: i64 = NANOS_PER_SECOND;

fn clip(duration: i64) -> Item {
    Item::Clip(Clip::new_single_media_reference(
        TimeRange::new(duration, 0),
        MediaReference {
            otio_schema: "ExternalReference.1".to_string(),
            target_url: "mem://".to_string(),
            available_range: None,
            name: None,
            available_image_bounds: None,
            metadata: serde_json::Value::Null,
        },
        None,
        None,
    ))
}

fn gap(duration: i64) -> Item {
    Item::Gap(Gap::new(duration, None))
}

fn shape(track: &Track) -> Vec<(bool, i64)> {
    track.items.iter().map(|i| (i.is_gap_item(), i.duration())).collect()
}

#[test]
fn total_and_start_times() {
    let mut track = Track::default();
    track.append(clip(2 * S));
    track.append(gap(-S));
    track.append(clip(3 * S));
    assert_eq!(track.total_duration(), 5 * S);
    assert_eq!(track.start_time_of_item(0), 0);
    assert_eq!(track.start_time_of_item(1), 2 * S);
    assert_eq!(track.start_time_of_item(2), 2 * S);
    assert_eq!(track.start_time_of_item(3), 5 * S);
    assert_eq!(track.start_time_of_item(99), 5 * S);
}

#[test]
fn item_at_time_is_left_closed_right_open() {
    let mut track = Track::default();
    track.append(clip(2 * S));
    track.append(clip(3 * S));
    assert_eq!(track.get_item_at_time(0), Some(0));
    assert_eq!(track.get_item_at_time(2 * S - 1), Some(0));
    assert_eq!(track.get_item_at_time(2 * S), Some(1));
    assert_eq!(track.get_item_at_time(5 * S), None);
    assert_eq!(track.get_item_at_time(-1), None);
}

#[test]
fn item_by_id_takes_the_first_match() {
    let mut track = Track::default();
    let mut a = clip(S);
    a.set_id(Some("dup".to_string()));
    let mut b = clip(2 * S);
    b.set_id(Some("dup".to_string()));
    track.append(a);
    track.append(b);
    let (i, it) = track.get_item_by_id("dup").expect("found");
    assert_eq!(i, 0);
    assert_eq!(it.duration(), S);
    assert!(track.get_item_by_id("other").is_none());
}

#[test]
fn fresh_ids_are_twelve_hex_digits() {
    let g = Gap::make_gap(S);
    let id = g.get_id().expect("id");
    assert_eq!(id.len(), 12);
    assert!(id.chars().all(|c| c.is_ascii_digit() || ('a'..='f').contains(&c)));
    let t = Track::default();
    assert_eq!(t.get_id().map(|s| s.len()), Some(12));
}

#[test]
fn encode_hex_writes_two_digits_per_byte() {
    assert_eq!(tellers_timeline_core::ids::encode_hex(&vec![0xab, 0x01, 0x00, 0xff]), "ab0100ff");
}

#[test]
fn new_entities_have_empty_object_metadata() {
    let g = Gap::new(S, Some("g".to_string()));
    assert_eq!(g.metadata, serde_json::Value::Object(serde_json::Map::new()));
    assert_eq!(g.id.as_deref(), Some("g"));
}

#[test]
fn duplicate_copies_metadata() {
    let mut g = Gap::new(S, None);
    g.metadata = serde_json::Value::String("blob".to_string());
    let it = Item::Gap(g);
    let copy = it.duplicate();
    assert_eq!(copy, it);
}

#[test]
fn media_reference_helpers() {
    let mut r = MediaReference {
        otio_schema: "ExternalReference.1".to_string(),
        target_url: "mem://".to_string(),
        available_range: None,
        name: None,
        available_image_bounds: None,
        metadata: serde_json::Value::Null,
    };
    assert_eq!(r.media_start(), 0);
    assert_eq!(r.media_duration(), None);
    r.set_media_start(4 * S);
    assert_eq!(r.media_start(), 4 * S);
    assert_eq!(r.media_duration(), Some(0));
    r.set_media_duration(Some(9 * S));
    assert_eq!(r.media_duration(), Some(9 * S));
    assert_eq!(r.media_start(), 4 * S);
    r.set_media_duration(None);
    assert_eq!(r.available_range, None);
}

#[test]
fn single_reference_clip_uses_default_key() {
    match clip(S) {
        Item::Clip(c) => {
            assert_eq!(c.active_media_reference_key.as_deref(), Some("DEFAULT_MEDIA"));
            assert_eq!(c.media_references.len(), 1);
            assert_eq!(c.media_references[0].0, "DEFAULT_MEDIA");
        }
        _ => panic!("expected a clip"),
    }
}

#[test]
fn loaded_ids_prefer_current_then_legacy() {
    assert_eq!(tellers_timeline_core::ids::choose_timeline_id(Some("cur".to_string()), Some("old".to_string())), "cur");
    assert_eq!(tellers_timeline_core::ids::choose_timeline_id(None, Some("old".to_string())), "old");
    assert_eq!(tellers_timeline_core::ids::choose_timeline_id(None, None).len(), 12);
}

#[test]
fn number_ids_are_twelve_digits() {
    assert_eq!(tellers_timeline_core::ids::number_id(0), "000000000000");
    assert_eq!(tellers_timeline_core::ids::number_id(0x1a2b), "000000001a2b");
}
