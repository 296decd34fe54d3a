use adequate_booru_viewer::config::{FilterName, SavedFilter};
use adequate_booru_viewer::filter_bank::{active, clip, get, sorted, spare, spare_named, stem};
use adequate_booru_viewer::model::{Query, QueryAtom, Tag, TagPolarity};

fn filter(name: &str) -> SavedFilter {
    SavedFilter::new(FilterName::forge(name).expect("filter name"), Query::default(), Vec::new())
}

fn tagged(name: &str, tag: &str) -> SavedFilter {
    let mut query = Query::default();
    assert!(query.push_atom(&[], QueryAtom::Tag(Tag::forge(tag).unwrap()), TagPolarity::Positive));
    SavedFilter::new(FilterName::forge(name).expect("filter name"), query, Vec::new())
}

#[test]
fn clone_names_take_the_next_free_suffix() {
    let filters = vec![filter("pose"), filter("pose 2")];
    let base = FilterName::forge("pose").expect("base filter name");
    assert_eq!(spare_named(&base, &filters).as_str(), "pose 3");
}

#[test]
fn active_filter_must_exist() {
    let filters = vec![filter("pose")];
    assert_eq!(
        active(FilterName::forge("pose"), &filters).as_ref().map(FilterName::as_str),
        Some("pose")
    );
    assert!(active(FilterName::forge("lost"), &filters).is_none());
}

#[test]
fn free_names_are_kept_as_they_are() {
    let filters = vec![filter("alpha"), filter("omega")];
    let base = FilterName::forge("pose").unwrap();
    assert_eq!(spare_named(&base, &filters).as_str(), "pose");
}

#[test]
fn sorting_orders_by_name_and_keeps_the_first_duplicate() {
    let out = sorted(vec![tagged("b", "one"), tagged("a", "two"), tagged("b", "three")]);
    let names: Vec<&str> = out.iter().map(|f| f.name.as_str()).collect();
    assert_eq!(names, vec!["a", "b"]);
    assert_eq!(out[1].tree.to_text(), "one");
}

#[test]
fn lookup_finds_filters_by_name() {
    let filters = sorted(vec![filter("c"), filter("a"), filter("b")]);
    let found = get(&FilterName::forge("b").unwrap(), &filters).expect("b is saved");
    assert_eq!(found.name.as_str(), "b");
    assert!(get(&FilterName::forge("d").unwrap(), &filters).is_none());
}

#[test]
fn stems_clip_long_query_text() {
    let long: Vec<char> = "abcdefghij".chars().collect();
    assert_eq!(clip(&long, 4).into_iter().collect::<String>(), "abcd…");
    assert_eq!(clip(&long, 10).into_iter().collect::<String>(), "abcdefghij");
    assert_eq!(stem(&Query::default()), "neutral");
}

#[test]
fn spare_names_grow_from_the_query_text() {
    let mut query = Query::default();
    assert!(query.push_atom(&[], QueryAtom::Tag(Tag::forge("solo").unwrap()), TagPolarity::Positive));
    let filters = sorted(vec![filter("solo")]);
    assert_eq!(spare(&query, &filters).as_str(), "solo 2");
    assert_eq!(spare(&Query::default(), &filters).as_str(), "neutral");
}
