use adequate_booru_viewer::model::Tag;
use adequate_booru_viewer::tag_palette::grouped;

fn tags(names: &[&str]) -> Vec<Tag> {
    names.iter().map(|name| Tag::forge(name).unwrap()).collect()
}

fn names(group: &[Tag]) -> Vec<&str> {
    group.iter().map(Tag::as_str).collect()
}

#[test]
fn tags_group_by_kind_in_palette_order() {
    let post_tags = tags(&["solo", "hatsune_miku", "vocaloid", "smile", "highres"]);
    let kinds = [0u8, 4, 3, 0, 5];
    let order = [1u8, 3, 4, 0, 5];
    let groups = grouped(&post_tags, &kinds, &order);
    let kinds_out: Vec<u8> = groups.iter().map(|(kind, _)| *kind).collect();
    assert_eq!(kinds_out, vec![3, 4, 0, 5]);
    assert_eq!(names(&groups[0].1), vec!["vocaloid"]);
    assert_eq!(names(&groups[2].1), vec!["solo", "smile"]);
    assert!(grouped(&[], &[], &order).is_empty());
}
