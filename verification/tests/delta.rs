use adequate_booru_viewer::delta::record_delta;
use adequate_booru_viewer::model::{PostId, PostRecord, Rating, RatingClass, Tag};

fn post(id: u32, rating: Rating, tags: &[&str]) -> PostRecord {
    PostRecord {
        id: PostId(id),
        rating,
        score: 0,
        favs: 0,
        width: 1,
        height: 1,
        created_at: String::new(),
        tags: tags.iter().map(|tag| Tag::forge(tag).unwrap()).collect(),
        preview_url: None,
        thumb_360_url: None,
        thumb_720_url: None,
        large_url: None,
        file_url: None,
    }
}

fn sorted(mut v: Vec<String>) -> Vec<String> {
    v.sort();
    v
}

#[test]
fn a_replaced_record_moves_only_the_changed_postings() {
    let old = post(7, Rating::General, &["solo", "bikini", "solo"]);
    let new = post(7, Rating::Questionable, &["solo", "nude", "swimsuit"]);
    let delta = record_delta(Some(&old), Some(&new)).unwrap();
    assert_eq!(delta.id, PostId(7));
    assert_eq!(sorted(delta.removed), vec!["bikini"]);
    assert_eq!(sorted(delta.added), vec!["nude", "swimsuit"]);
    assert_eq!(delta.rating_out, Some(RatingClass::General));
    assert_eq!(delta.rating_in, Some(RatingClass::Questionable));
}

#[test]
fn an_unchanged_rating_stays_put() {
    let old = post(3, Rating::Explicit, &["solo"]);
    let new = post(3, Rating::Explicit, &["solo", "solo"]);
    let delta = record_delta(Some(&old), Some(&new)).unwrap();
    assert!(delta.removed.is_empty() && delta.added.is_empty());
    assert_eq!((delta.rating_out, delta.rating_in), (None, None));
}

#[test]
fn animated_records_and_missing_records_hold_no_postings() {
    let fresh = post(9, Rating::Sensitive, &["solo", "animated"]);
    let delta = record_delta(None, Some(&fresh)).unwrap();
    assert_eq!(delta.id, PostId(9));
    assert!(delta.added.is_empty() && delta.removed.is_empty());
    assert_eq!((delta.rating_out, delta.rating_in), (None, None));
    let gone = post(9, Rating::Sensitive, &["solo", "blue_sky"]);
    let delta = record_delta(Some(&gone), None).unwrap();
    assert_eq!(sorted(delta.removed), vec!["blue_sky", "solo"]);
    assert_eq!(delta.rating_out, Some(RatingClass::Sensitive));
    assert_eq!(delta.rating_in, None);
    assert!(record_delta(None, None).is_none());
}
