use adequate_booru_viewer::config::{FilterName, SavedFilter};
use adequate_booru_viewer::model::Query;
use adequate_booru_viewer::saved_filter_ui::{plan_rename, save_name, NameEdit, RenamePlan};

fn filter(name: &str) -> SavedFilter {
    SavedFilter::new(FilterName::forge(name).expect("filter name"), Query::default(), Vec::new())
}

#[test]
fn renaming_needs_an_active_filter_and_a_name() {
    let filters = vec![filter("eyes"), filter("pose")];
    let plan = plan_rename(&None, "new name", &filters);
    assert!(matches!(plan, RenamePlan::NoActive));
    assert_eq!(plan.notice().as_deref(), Some("no active filter to rename"));
    let plan = plan_rename(&FilterName::forge("pose"), "   ", &filters);
    assert!(matches!(plan, RenamePlan::NeedsName));
    assert_eq!(plan.notice().as_deref(), Some("rename needs a nonempty filter name"));
}

#[test]
fn renaming_to_the_same_name_changes_nothing() {
    let filters = vec![filter("pose")];
    let plan = plan_rename(&FilterName::forge("pose"), "  pose ", &filters);
    assert!(matches!(plan, RenamePlan::Unchanged));
    assert!(plan.notice().is_none());
}

#[test]
fn renaming_onto_a_taken_name_is_refused() {
    let filters = vec![filter("eyes"), filter("pose")];
    let plan = plan_rename(&FilterName::forge("pose"), "eyes", &filters);
    assert_eq!(plan.notice().as_deref(), Some("filter `eyes` already exists"));
}

#[test]
fn renaming_to_a_free_name_goes_ahead() {
    let filters = vec![filter("eyes"), filter("pose")];
    let plan = plan_rename(&FilterName::forge("pose"), "sitting   pose", &filters);
    match &plan {
        RenamePlan::Rename { old, new } => {
            assert_eq!(old.as_str(), "pose");
            assert_eq!(new.as_str(), "sitting pose");
        }
        other => panic!("expected a rename, got {other:?}"),
    }
    assert_eq!(plan.notice().as_deref(), Some("renamed filter `pose` → `sitting pose`"));
}

#[test]
fn saving_prefers_the_typed_then_the_active_name() {
    let filters = vec![filter("solo")];
    let query = Query::parse("solo");
    assert_eq!(save_name(" blue  eyes ", &FilterName::forge("pose"), &query, &filters).as_str(), "blue eyes");
    assert_eq!(save_name("", &FilterName::forge("pose"), &query, &filters).as_str(), "pose");
    assert_eq!(save_name("", &None, &query, &filters).as_str(), "solo 2");
    assert_eq!(save_name("", &None, &Query::default(), &filters).as_str(), "neutral");
}

#[test]
fn name_edits_start_idle() {
    assert_eq!(NameEdit::default(), NameEdit::Idle);
}
