use adequate_booru_viewer::configuration::{library_form, LibraryForm};
use adequate_booru_viewer::configuration::{
    Configuration, Corpus, FilterLibrary, FilterName, FilterSelection, Folder, LegacyFilterLibrary,
    LegacySavedFilter, MirrorPolicy, SavedFilter, SessionState, WaterMode, SAFE_DEFAULT_FILTER,
};
use adequate_booru_viewer::filter_expression::{parse, render};
use adequate_booru_viewer::model::{BoolOp, Query, QueryAtom, Tag, TagPolarity};

fn tag(raw: &str) -> QueryAtom {
    QueryAtom::Tag(Tag::forge(raw).expect("forge tag"))
}

#[test]
fn filter_library_roundtrips_without_session_folds() {
    let mut query = Query::default();
    assert!(query.push_atom(&[], tag("solo"), TagPolarity::Positive));
    let choice = query.push_group(&[], BoolOp::Or).expect("push OR");
    assert!(query.push_atom(&choice, tag("bikini"), TagPolarity::Positive));
    assert!(query.push_atom(&choice, tag("nude"), TagPolarity::Positive));

    let library = FilterLibrary {
        unfiled: vec![SavedFilter::new(FilterName::forge("beach").expect("filter name"), query.copy())],
        folders: vec![Folder {
            name: "trips".to_owned(),
            filters: vec![SavedFilter::new(FilterName::forge("shore").expect("filter name"), query.copy())],
        }],
    };
    let text = render(&library.unfiled[0].query).expect("render");
    assert_eq!(text, "solo AND (bikini OR nude)");
    let roundtrip = parse(&text).expect("parse");
    assert_eq!(roundtrip, library.unfiled[0].query);
    let folder_text = render(&library.folders[0].filters[0].query).expect("render");
    assert_eq!(parse(&folder_text).expect("parse"), query);
}

#[test]
fn first_run_seeds_only_the_absent_filter_library() {
    let seeded = FilterLibrary::first_run();
    assert_eq!(seeded.unfiled.len(), 1);
    assert_eq!(seeded.unfiled[0].name.as_str(), SAFE_DEFAULT_FILTER);
    assert!(render(&seeded.unfiled[0].query).expect("render").contains("rating:g"));
    assert!(FilterLibrary::default().unfiled.is_empty());
}

#[test]
fn defaults_are_active_and_wet() {
    let configuration = Configuration::default();
    assert!(configuration.prefetch_on_hover);
    assert!(configuration.mirror.policy.active());
    assert!(!MirrorPolicy::Paused.active());
    let session = SessionState::default();
    assert_eq!(session.images_per_row, 5);
    assert!(session.water.wet());
    assert!(!WaterMode::Dry.wet());
    assert!(session.query.tree.is_empty());
}

#[test]
fn selections_name_saved_filters_and_corpora() {
    let saved = FilterSelection::Saved { name: FilterName::forge("beach").unwrap() };
    assert_eq!(saved.saved().map(FilterName::as_str), Some("beach"));
    assert_eq!(saved.corpus(), Corpus::All);
    assert!(FilterSelection::LocalFavorites.saved().is_none());
    assert_eq!(FilterSelection::LocalFavorites.corpus(), Corpus::LocalFavorites);
}

#[test]
fn legacy_libraries_migrate_in_order() {
    let mut query = Query::default();
    assert!(query.push_atom(&[], tag("solo"), TagPolarity::Positive));
    let legacy = LegacyFilterLibrary {
        saved: vec![LegacySavedFilter {
            name: FilterName::forge("beach").unwrap(),
            tree: query.copy(),
            active_group: vec![3],
        }],
        shelves: Vec::new(),
    };
    let library = legacy.migrate();
    assert_eq!(library.unfiled.len(), 1);
    assert_eq!(library.unfiled[0].name.as_str(), "beach");
    assert_eq!(library.unfiled[0].query, query);
    assert!(library.folders.is_empty());
}

#[test]
fn filter_library_layouts_cannot_be_mixed() {
    assert_eq!(library_form(true, false), Ok(LibraryForm::Legacy));
    assert_eq!(library_form(false, true), Ok(LibraryForm::Current));
    assert_eq!(library_form(false, false), Ok(LibraryForm::Current));
    assert_eq!(
        library_form(true, true),
        Err("legacy `saved`/`shelves` cannot be combined with `filter`/`folder`")
    );
}
