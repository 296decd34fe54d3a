use adequate_booru_viewer::config::{FilterName, PinConfig, QueryConfig, SavedFilter};
use adequate_booru_viewer::model::{BoolOp, PostId, Query, QueryAtom, Tag, TagPolarity};

#[test]
fn filter_names_are_compacted_and_nonempty() {
    let name = FilterName::forge("  study   pose  ").expect("valid filter name");
    assert_eq!(name.as_str(), "study pose");
    assert!(FilterName::forge(" \n\t ").is_none());
}

#[test]
fn neutral_name_is_neutral() {
    assert_eq!(FilterName::neutral().as_str(), "neutral");
}

#[test]
fn pin_weights_are_clamped() {
    assert_eq!(PinConfig::new(PostId(7), 0).weight, 1);
    assert_eq!(PinConfig::new(PostId(7), 4).weight, 4);
    assert_eq!(PinConfig::new(PostId(7), 200).weight, 6);
    assert_eq!(PinConfig::new(PostId(7), 3).id, PostId(7));
}

#[test]
fn saved_filters_keep_only_real_active_groups() {
    let mut query = Query::default();
    assert!(query.push_atom(&[], QueryAtom::Tag(Tag::forge("solo").unwrap()), TagPolarity::Positive));
    let choice = query.push_group(&[], BoolOp::Or).unwrap();
    let kept = SavedFilter::new(FilterName::forge("beach").unwrap(), query.copy(), choice.clone());
    assert_eq!(kept.active_group, choice);
    let dropped = SavedFilter::new(FilterName::forge("beach").unwrap(), query.copy(), vec![7, 1]);
    assert!(dropped.active_group.is_empty());
    let config = QueryConfig { tree: query.copy(), active_group: choice };
    assert_eq!(config.query(), query);
}
