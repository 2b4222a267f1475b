use tellers_timeline_core::{
    Clip, Gap, IdMetadataExt, InsertPolicy, Item, MediaReference, OverlapPolicy, RationalTime, TimeRange, Timeline, Track,
    NANOS_PER_SECOND,
};

const S: i64 = NANOS_PER_SECOND;

fn make_clip_with_id(duration: i64, id: &str) -> Item {
    let range = |d: i64| TimeRange {
        otio_schema: "TimeRange.1".to_string(),
        duration: RationalTime { otio_schema: "RationalTime.1".to_string(), rate: S, value: d },
        start_time: RationalTime { otio_schema: "RationalTime.1".to_string(), rate: S, value: 0 },
    };
    let refs: Vec<(String, MediaReference)> = vec![(
        "DEFAULT_MEDIA".to_string(),
        MediaReference {
            otio_schema: "ExternalReference.1".to_string(),
            target_url: "mem://".to_string(),
            available_range: Some(range(duration)),
            name: None,
            available_image_bounds: None,
            metadata: serde_json::Value::Null,
        },
    )];
    let mut it = Item::Clip(Clip {
        otio_schema: "Clip.2".to_string(),
        name: Some("c".to_string()),
        source_range: range(duration),
        media_references: refs,
        active_media_reference_key: Some("DEFAULT_MEDIA".to_string()),
        metadata: serde_json::Value::Null,
        id: None,
    });
    it.set_id(Some(id.to_string()));
    it
}

#[test]
fn stack_get_and_remove_item() {
    let mut tl = Timeline::default();
    let mut t1 = Track::default();
    let mut t2 = Track::default();
    let id1 = "id-1";
    let id2 = "id-2";

    t1.items.push(make_clip_with_id(2 * S, id1));
    t2.items.push(make_clip_with_id(3 * S, id2));

    let tid1 = "tid-1".to_string();
    let tid2 = "tid-2".to_string();
    t1.set_id(Some(tid1.clone()));
    t2.set_id(Some(tid2.clone()));

    tl.tracks.children.push(t1);
    tl.tracks.children.push(t2);

    let got = tl.tracks.get_item(id1).expect("should find");
    assert_eq!(got.0, 0);
    assert_eq!(got.1, 0);

    let removed = tl.tracks.delete_item(id1, false).expect("removed");
    assert_eq!(removed.0, 0);
    assert!(matches!(removed.1, Item::Clip(_)));
    assert!(tl.tracks.children[0].items.is_empty());
}

#[test]
fn stack_move_item_between_tracks_at_time() {
    let mut tl = Timeline::default();
    let mut t1 = Track::default();
    let mut t2 = Track::default();

    let tid1 = "tid-1".to_string();
    let tid2 = "tid-2".to_string();
    t1.set_id(Some(tid1.clone()));
    t2.set_id(Some(tid2.clone()));

    let id_move = "id-move";
    t1.items.push(make_clip_with_id(2 * S, id_move));
    t2.items.push(Item::Gap(Gap::make_gap(1 * S)));

    tl.tracks.children.push(t1);
    tl.tracks.children.push(t2);

    let ok = tl.tracks.move_item_at_time(
        id_move,
        &tid2,
        1 * S,
        false,
        InsertPolicy::InsertBeforeOrAfter,
        OverlapPolicy::Override,
    );
    assert!(ok);

    assert!(tl.tracks.children[0].items.is_empty());

    let dest = &tl.tracks.children[1];
    assert_eq!(dest.items.len(), 2);
    let found = dest.items.iter().any(|it| it.get_id().as_deref() == Some(id_move));
    assert!(found);
}

fn two_track_timeline() -> Timeline {
    let mut tl = Timeline::default();
    let mut t1 = Track::new(tellers_timeline_core::TrackKind::Video, Some("a".to_string()));
    let mut t2 = Track::new(tellers_timeline_core::TrackKind::Audio, Some("b".to_string()));
    t1.append(make_clip_with_id(2 * S, "x"));
    t1.append(make_clip_with_id(3 * S, "y"));
    t2.append(make_clip_with_id(4 * S, "z"));
    tl.add_track(t1);
    tl.add_track(t2);
    tl
}

#[test]
fn move_to_unknown_track_changes_nothing() {
    let mut tl = two_track_timeline();
    let ok = tl.tracks.move_item_at_time("x", "nope", 0, false, InsertPolicy::InsertBefore, OverlapPolicy::Push);
    assert!(!ok);
    assert_eq!(tl.tracks.children[0].items.len(), 2);
    assert!(!tl.tracks.move_item_at_time("missing", "b", 0, false, InsertPolicy::InsertBefore, OverlapPolicy::Push));
    assert!(!tl.tracks.move_item_at_time("x", "b", -5, false, InsertPolicy::InsertBefore, OverlapPolicy::Push));
    assert_eq!(tl.tracks.children[0].items.len(), 2);
    assert_eq!(tl.tracks.children[1].items.len(), 1);
}

#[test]
fn move_with_push_keeps_clip_count() {
    let mut tl = two_track_timeline();
    let before = tl.tracks.children.iter().map(|t| t.items.iter().filter(|i| matches!(i, Item::Clip(_))).count()).sum::<usize>();
    assert!(tl.tracks.move_item_at_time("y", "b", 4 * S, false, InsertPolicy::InsertAfter, OverlapPolicy::Push));
    let after = tl.tracks.children.iter().map(|t| t.items.iter().filter(|i| matches!(i, Item::Clip(_))).count()).sum::<usize>();
    assert_eq!(before, after);
    assert_eq!(tl.tracks.children[1].items[1].get_id().as_deref(), Some("y"));
}

#[test]
fn move_with_gap_replacement_leaves_a_gap() {
    let mut tl = two_track_timeline();
    assert!(tl.tracks.move_item_at_time("x", "b", 0, true, InsertPolicy::InsertBefore, OverlapPolicy::Push));
    assert!(matches!(tl.tracks.children[0].items[0], Item::Gap(_)));
    assert_eq!(tl.tracks.children[0].total_duration(), 5 * S);
    assert_eq!(tl.tracks.children[1].items[0].get_id().as_deref(), Some("x"));
}

#[test]
fn move_item_at_index_and_insert_by_track_id() {
    let mut tl = two_track_timeline();
    assert!(tl.tracks.move_item_at_index("z", "a", 1, false, OverlapPolicy::Push));
    let ids: Vec<Option<String>> = tl.tracks.children[0].items.iter().map(|i| i.get_id()).collect();
    assert_eq!(ids, vec![Some("x".to_string()), Some("z".to_string()), Some("y".to_string())]);
    assert!(tl.tracks.children[1].items.is_empty());
    assert!(tl.tracks.insert_item_at_index("b", 0, make_clip_with_id(S, "w"), OverlapPolicy::Push));
    assert!(!tl.tracks.insert_item_at_index("nope", 0, make_clip_with_id(S, "v"), OverlapPolicy::Push));
    assert_eq!(tl.tracks.children[1].items.len(), 1);
}

#[test]
fn timeline_track_management() {
    let mut tl = two_track_timeline();
    let t = Track::new(tellers_timeline_core::TrackKind::Other, Some("c".to_string()));
    tl.add_track_at(t, 0);
    assert_eq!(tl.tracks.children[0].get_id().as_deref(), Some("c"));
    let t = Track::new(tellers_timeline_core::TrackKind::Other, Some("d".to_string()));
    tl.add_track_at(t, -1);
    assert_eq!(tl.tracks.children[3].get_id().as_deref(), Some("d"));
    let gone = tl.delete_track("a").expect("track a exists");
    assert_eq!(gone.items.len(), 2);
    assert!(tl.delete_track("a").is_none());
    assert_eq!(tl.tracks.children.len(), 3);
    let (i, _) = tl.tracks.get_track_by_id("b").expect("b");
    assert_eq!(i, 1);
}

#[test]
fn stack_insert_item_at_time_checks_track_index() {
    let mut tl = two_track_timeline();
    assert!(!tl.tracks.insert_item_at_time(7, 0, make_clip_with_id(S, "q"), OverlapPolicy::Push, InsertPolicy::InsertBefore));
    assert!(tl.tracks.insert_item_at_time(1, 0, make_clip_with_id(S, "q"), OverlapPolicy::Push, InsertPolicy::InsertBefore));
    assert_eq!(tl.tracks.children[1].items[0].get_id().as_deref(), Some("q"));
}

#[test]
fn move_item_at_index_within_one_track() {
    let mut tl = two_track_timeline();
    assert!(tl.tracks.move_item_at_index("y", "a", 0, false, OverlapPolicy::Push));
    let ids: Vec<Option<String>> = tl.tracks.children[0].items.iter().map(|i| i.get_id()).collect();
    assert_eq!(ids, vec![Some("y".to_string()), Some("x".to_string())]);
    assert_eq!(tl.tracks.children[1].items.len(), 1);
}

#[test]
fn move_item_at_index_with_gap_and_override() {
    let mut tl = two_track_timeline();
    assert!(tl.tracks.move_item_at_index("x", "b", 0, true, OverlapPolicy::Override));
    // The source keeps a gap where the clip was.
    assert!(matches!(tl.tracks.children[0].items[0], Item::Gap(_)));
    assert_eq!(tl.tracks.children[0].items[0].duration(), 2 * S);
    // The clip overrides the first 2 s of the destination.
    let ids: Vec<Option<String>> = tl.tracks.children[1].items.iter().map(|i| i.get_id()).collect();
    assert_eq!(ids[0].as_deref(), Some("x"));
    assert_eq!(tl.tracks.children[1].total_duration(), 4 * S);
}

#[test]
fn delete_item_refuses_gaps_without_change() {
    let mut tl = two_track_timeline();
    let mut g = Gap::make_gap(S);
    g.id = Some("g".to_string());
    tl.tracks.children[1].append(Item::Gap(g));
    let before = tl.clone();
    assert!(tl.tracks.delete_item("g", false).is_none());
    assert!(tl.tracks.delete_item("nothing", false).is_none());
    assert_eq!(tl, before);
}
