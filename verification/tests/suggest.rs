use adequate_booru_viewer::model::Tag;
use adequate_booru_viewer::suggest::{ranked_suggestions, TagSuggestion};

fn hit(tag: &str, posts: u64) -> TagSuggestion {
    TagSuggestion { tag: Tag::forge(tag).unwrap(), kind: 0, posts }
}

fn tags(v: &[TagSuggestion]) -> Vec<(&str, u64)> {
    v.iter().map(|s| (s.tag.as_str(), s.posts)).collect()
}

#[test]
fn suggestions_rank_by_posts_then_tag() {
    let hits = vec![hit("blue_sky", 40), hit("blue_eyes", 90), hit("blush", 40), hit("blue_hair", 7)];
    let best = ranked_suggestions(hits, 3);
    assert_eq!(tags(&best), vec![("blue_eyes", 90), ("blue_sky", 40), ("blush", 40)]);
}

#[test]
fn a_short_list_is_kept_whole_and_a_zero_limit_keeps_nothing() {
    let best = ranked_suggestions(vec![hit("b", 1), hit("a", 1)], 10);
    assert_eq!(tags(&best), vec![("a", 1), ("b", 1)]);
    assert!(ranked_suggestions(vec![hit("a", 3)], 0).is_empty());
    assert!(ranked_suggestions(Vec::new(), 4).is_empty());
}
