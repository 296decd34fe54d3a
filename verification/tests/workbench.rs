use adequate_booru_viewer::index::{
    chunk_key, chunk_of, chunk_prefix, indexed_rating, normalize_prefix, set_sort_key, sort_key_i32,
    sort_key_u32, FactMergeBudget,
};
use adequate_booru_viewer::model::{PostId, PostRecord, Query, Rating, RatingClass, Sort, Tag};
use adequate_booru_viewer::query_ui::{group_label, group_title};
use adequate_booru_viewer::refresh::{next_serial, AsyncPulse};
use adequate_booru_viewer::workbench::{active_prefix, posts_changed, BladeKind, EmptyState, WarmKey};

fn post(id: u32, tag: &str) -> PostRecord {
    PostRecord {
        id: PostId(id),
        rating: Rating::Questionable,
        score: 0,
        favs: 0,
        width: 1,
        height: 1,
        created_at: String::new(),
        tags: vec![Tag::forge(tag).unwrap()],
        preview_url: None,
        thumb_360_url: Some(format!("https://cdn.example/{id}.jpg")),
        thumb_720_url: None,
        large_url: None,
        file_url: None,
    }
}

#[test]
fn chunk_keys_name_the_chunk_in_hex() {
    assert_eq!(chunk_of(0x0003_ffff), 3);
    assert_eq!(chunk_key("tag:solo", 0x2a), "tag:solo\u{0}0000002a");
    assert_eq!(chunk_prefix("tag:solo"), "tag:solo\0");
}

#[test]
fn sort_keys_order_by_value_then_id() {
    assert_eq!(sort_key_u32(1, PostId(2)), (1u64 << 32) | 2);
    assert_eq!(sort_key_i32(i32::MIN, PostId(5)), 5);
    assert_eq!(sort_key_i32(0, PostId(0)), 1u64 << 63);
    assert!(sort_key_i32(-1, PostId(9)) < sort_key_i32(0, PostId(1)));
}

#[test]
fn sort_key_table_grows_with_zeros() {
    let mut keys = vec![7u64];
    set_sort_key(&mut keys, PostId(3), Some(9));
    assert_eq!(keys, vec![7, 0, 0, 9]);
    set_sort_key(&mut keys, PostId(0), None);
    assert_eq!(keys, vec![0, 0, 0, 9]);
}

#[test]
fn completion_prefixes_are_tag_shaped() {
    assert_eq!(normalize_prefix("  Blue Eyes "), Some("blue_eyes".to_owned()));
    assert_eq!(normalize_prefix("   "), None);
    assert_eq!(FactMergeBudget::steady().bytes, 16 * 1024 * 1024);
}

#[test]
fn animated_posts_have_no_indexed_rating() {
    assert_eq!(indexed_rating(Some(&post(1, "solo"))), Some(RatingClass::Questionable));
    assert_eq!(indexed_rating(Some(&post(1, "animated"))), None);
    assert_eq!(indexed_rating(None), None);
}

#[test]
fn group_titles_count_from_one() {
    assert_eq!(group_title(&[]), "root");
    assert_eq!(group_title(&[0, 2]), "g1.3");
    assert_eq!(group_label(&[1], true), "◆ g2");
    assert_eq!(group_label(&[], false), "◇ root");
}

#[test]
fn serials_and_pulses() {
    let mut serial = 4u64;
    assert_eq!(next_serial(&mut serial), 5);
    assert_eq!(serial, 5);
    let mut last = u64::MAX;
    assert_eq!(next_serial(&mut last), u64::MAX);
    assert_eq!(AsyncPulse::Dirty { serial: 3 }.inflight_serial(), Some(3));
    assert!(AsyncPulse::Dirty { serial: 3 }.is_dirty());
    assert_eq!(AsyncPulse::Idle.inflight_serial(), None);
}

#[test]
fn active_prefix_reads_the_last_word() {
    let p = active_prefix("solo -blue_e").unwrap();
    assert_eq!((p.body.as_str(), p.negative), ("blue_e", true));
    let p = active_prefix("+ab").unwrap();
    assert_eq!((p.body.as_str(), p.negative), ("ab", false));
    assert!(active_prefix("solo ").is_none());
    assert!(active_prefix("-").is_none());
    assert!(active_prefix("").is_none());
}

#[test]
fn warm_keys_and_labels() {
    let key = WarmKey::new(&Query::default(), Sort::Score);
    assert_eq!(key.label(), "score ∅");
    let key = WarmKey::new(&Query::parse("solo"), Sort::Newest);
    assert_eq!(key.label(), "newest solo");
    assert_eq!(BladeKind::Thumb(1).texture_prefix(), "post-360");
    assert_eq!(BladeKind::Full.texture_prefix(), "full");
    assert_eq!(EmptyState::Settled.label(), "EMPTY");
    assert!(EmptyState::Warming.raised());
    assert!(!EmptyState::Warming.draining());
}

#[test]
fn result_lists_change_by_id_or_thumbnail() {
    let a = vec![post(1, "solo"), post(2, "solo")];
    let b = vec![post(1, "solo"), post(2, "solo")];
    assert!(!posts_changed(&a, &b));
    let c = vec![post(1, "solo"), post(3, "solo")];
    assert!(posts_changed(&a, &c));
    assert!(posts_changed(&a, &a[..1]));
}
