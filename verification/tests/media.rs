use adequate_booru_viewer::contract::{encode_identity, Target, ViewerControl, Water};
use adequate_booru_viewer::media::{extension, fnv1a, required_url, save_filename, MediaError};
use adequate_booru_viewer::model::{PostId, PostRecord, Rating};

#[test]
fn extensions_come_from_the_path() {
    assert_eq!(extension("https://cdn.example/a/b.jpg?download=1"), "jpg");
    assert_eq!(extension("https://cdn.example/a/b"), "img");
    assert_eq!(extension("https://cdn.example/a/b.we-bp"), "img");
}

#[test]
fn fnv1a_matches_reference_values() {
    assert_eq!(fnv1a(""), 0xcbf2_9ce4_8422_2325);
    assert_eq!(fnv1a("a"), 0xaf63_dc4c_8601_ec8c);
}

#[test]
fn media_needs_a_url() {
    assert_eq!(required_url(Some("u")), Ok("u"));
    assert_eq!(required_url(None), Err(MediaError::NoUrl));
}

#[test]
fn wire_names_encode_identities() {
    assert_eq!(ViewerControl::Danbooru.wire(), "danbooru");
    assert_eq!(Water::ReallyWet.wire(), "really");
    assert_eq!(encode_identity("pose 2/é"), "pose%202%2F%C3%A9");
    assert_eq!(Target::Filter("a b".to_owned()).wire(), "abv.cabinet.filter.entry/a%20b");
    assert_eq!(Target::ViewerControl(ViewerControl::Next).wire(), "abv.viewer.control.next");
}

#[test]
fn saved_media_names_carry_the_post_id() {
    let post = PostRecord {
        id: PostId(42),
        rating: Rating::General,
        score: 0,
        favs: 0,
        width: 1,
        height: 1,
        created_at: String::new(),
        tags: Vec::new(),
        preview_url: None,
        thumb_360_url: None,
        thumb_720_url: None,
        large_url: None,
        file_url: None,
    };
    assert_eq!(save_filename(&post, "https://x/y/z.png?w=1"), "danbooru-42.png");
}

#[test]
fn a_plain_file_name_keeps_its_last_extension() {
    assert_eq!(extension("sample.webm?download=1"), "webm");
    assert_eq!(extension("archive.tar.gz"), "gz");
    assert_eq!(extension(".hidden"), "img");
    assert_eq!(extension("noext"), "img");
    assert_eq!(extension("weird.j-g"), "img");
}

#[test]
fn a_missing_media_url_says_so() {
    let err = required_url(None).unwrap_err();
    assert_eq!(err.message(), "post has no media URL");
    assert_eq!(extension("https://cdn.test/a/b.png?x=1"), "png");
}

#[test]
fn trailing_slashes_do_not_hide_the_extension() {
    assert_eq!(extension("https://cdn.test/a/b.png/"), "png");
    assert_eq!(extension("https://cdn.test/a/b.webm//?x=1"), "webm");
    assert_eq!(extension("https://cdn.test/a/b/"), "img");
}
