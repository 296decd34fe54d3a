use adequate_booru_viewer::configuration::{
    FilterLibrary, FilterName, FilterSelection, Folder, SavedFilter, SessionState, WaterMode,
};
use adequate_booru_viewer::model::{BoolOp, Query, Sort};
use adequate_booru_viewer::restore::restore;

fn filter(name: &str, query: &str) -> SavedFilter {
    SavedFilter::new(FilterName::forge(name).unwrap(), Query::parse(query))
}

fn library() -> FilterLibrary {
    FilterLibrary {
        unfiled: vec![filter("general rating", "rating:g")],
        folders: vec![
            Folder { name: "eyes".to_owned(), filters: vec![filter("blue eyes", "blue_eyes")] },
            Folder { name: "poses".to_owned(), filters: vec![filter("sitting", "sitting solo")] },
        ],
    }
}

#[test]
fn the_session_filter_is_restored_while_the_library_has_it() {
    let mut session = SessionState::default();
    session.filter = FilterSelection::Saved { name: FilterName::forge("blue eyes").unwrap() };
    session.closed_folders = vec!["poses".to_owned()];
    session.images_per_row = 40;
    session.water = WaterMode::Dry;
    session.sort = Sort::Newest;
    let restored = restore(&library(), &session);
    assert_eq!(restored.active_filter.as_ref().map(FilterName::as_str), Some("blue eyes"));
    assert_eq!(restored.query.to_text(), "blue_eyes");
    assert_eq!(restored.shelf_open, vec![true, false]);
    assert_eq!(restored.images_per_row, 12);
    assert_eq!(restored.water, WaterMode::Dry);
    assert_eq!(restored.sort, Sort::Newest);
}

#[test]
fn a_vanished_filter_falls_back_to_the_session_query() {
    let mut session = SessionState::default();
    session.filter = FilterSelection::Saved { name: FilterName::forge("lost").unwrap() };
    let mut query = Query::parse("solo");
    let group = query.push_group(&[], BoolOp::Or).unwrap();
    session.query.tree = query;
    session.query.active_group = group.clone();
    session.images_per_row = 0;
    let restored = restore(&library(), &session);
    assert!(restored.active_filter.is_none());
    assert_eq!(restored.query.to_text(), "AND(solo OR())");
    assert_eq!(restored.active_group, group);
    assert_eq!(restored.images_per_row, 1);
    assert_eq!(restored.shelf_open, vec![true, true]);
}

#[test]
fn a_group_path_that_no_longer_names_a_group_resets_to_the_root() {
    let mut session = SessionState::default();
    session.filter = FilterSelection::Saved { name: FilterName::forge("general rating").unwrap() };
    session.query.active_group = vec![3, 1];
    let restored = restore(&library(), &session);
    assert_eq!(restored.query.to_text(), "rating:g");
    assert!(restored.active_group.is_empty());
}
