use adequate_booru_viewer::model::{PostId, PostRecord, Rating, Tag};
use adequate_booru_viewer::viewer::{full_request, zoom_target, FullRequest};

fn post(id: u32, large: Option<&str>, file: Option<&str>) -> PostRecord {
    PostRecord {
        id: PostId(id),
        rating: Rating::Questionable,
        score: 0,
        favs: 0,
        width: 1,
        height: 1,
        created_at: String::new(),
        tags: vec![Tag::forge("solo").unwrap()],
        preview_url: Some(format!("https://cdn.example/p/{id}.jpg")),
        thumb_360_url: None,
        thumb_720_url: None,
        large_url: large.map(str::to_owned),
        file_url: file.map(str::to_owned),
    }
}

fn listing() -> Vec<PostRecord> {
    vec![post(10, None, None), post(11, None, None), post(12, None, None)]
}

#[test]
fn viewer_steps_stay_within_the_results() {
    let posts = listing();
    assert_eq!(zoom_target(&posts, PostId(11), 1), Some(2));
    assert_eq!(zoom_target(&posts, PostId(11), -1), Some(0));
    assert_eq!(zoom_target(&posts, PostId(10), -1), None);
    assert_eq!(zoom_target(&posts, PostId(12), 5), None);
    assert_eq!(zoom_target(&posts, PostId(10), 9), Some(2));
    assert_eq!(zoom_target(&posts, PostId(10), i32::MIN), None);
    assert_eq!(zoom_target(&posts, PostId(12), i32::MIN), Some(0));
    assert_eq!(zoom_target(&posts, PostId(99), 1), None);
}

#[test]
fn full_images_come_from_the_largest_url() {
    let large = post(5, Some("https://cdn.example/l/5.jpg"), Some("https://cdn.example/f/5.png"));
    match full_request(&large, false) {
        FullRequest::Fetch { url } => assert_eq!(url, "https://cdn.example/l/5.jpg"),
        other => panic!("expected a fetch, got {other:?}"),
    }
    assert!(matches!(full_request(&large, true), FullRequest::Skip));
    let original = post(6, None, Some("https://cdn.example/f/6.png"));
    match full_request(&original, false) {
        FullRequest::Fetch { url } => assert_eq!(url, "https://cdn.example/f/6.png"),
        other => panic!("expected a fetch, got {other:?}"),
    }
}

#[test]
fn a_post_without_a_full_url_says_so() {
    let mut bare = post(42, None, None);
    bare.preview_url = None;
    match full_request(&bare, false) {
        FullRequest::NoUrl { notice } => assert_eq!(notice, "#42 has no full image URL"),
        other => panic!("expected a notice, got {other:?}"),
    }
}
