use adequate_booru_viewer::model::{BoolOp, Query};
use adequate_booru_viewer::query_ui::{
    apply_action, commit_entry, QueryAction, QueryOutcome, MAX_GROUP_DEPTH,
};

fn installed(outcome: QueryOutcome) -> (String, Vec<usize>) {
    match outcome {
        QueryOutcome::Install(query, at) => (query.to_text(), at),
        other => panic!("expected an installed query, got {other:?}"),
    }
}

#[test]
fn committed_terms_join_the_active_group() {
    let query = Query::empty();
    let (text, at) = installed(commit_entry(&query, &[], "solo  -Rating:E"));
    assert_eq!(text, "solo -rating:e");
    assert!(at.is_empty());
}

#[test]
fn a_committed_term_replaces_the_same_atom() {
    let query = Query::parse("solo 1girl");
    let (text, _) = installed(commit_entry(&query, &[], "-solo"));
    assert_eq!(text, "1girl -solo");
}

#[test]
fn a_blank_entry_commits_nothing() {
    let query = Query::parse("solo");
    assert!(matches!(commit_entry(&query, &[], "  \t "), QueryOutcome::Keep));
}

#[test]
fn adding_a_group_below_the_cap_selects_it() {
    let query = Query::parse("solo");
    let (text, at) = installed(apply_action(&query, &[], QueryAction::AddGroup { op: BoolOp::Or }));
    assert_eq!(text, "AND(solo OR())");
    assert_eq!(at, vec![1]);
}

#[test]
fn group_nesting_is_capped() {
    let query = Query::parse("solo");
    let deep = vec![0; MAX_GROUP_DEPTH];
    match apply_action(&query, &deep, QueryAction::AddGroup { op: BoolOp::And }) {
        QueryOutcome::Capped { notice } => assert_eq!(notice, "group nesting is capped at 8"),
        other => panic!("expected the cap, got {other:?}"),
    }
}

#[test]
fn selecting_moves_focus_only_to_groups() {
    let query = Query::parse("solo");
    assert!(matches!(
        apply_action(&query, &[], QueryAction::Select { path: vec![0] }),
        QueryOutcome::Keep
    ));
    let (grouped, _) = match apply_action(&query, &[], QueryAction::AddGroup { op: BoolOp::Or }) {
        QueryOutcome::Install(q, at) => (q, at),
        other => panic!("expected an installed query, got {other:?}"),
    };
    match apply_action(&grouped, &[], QueryAction::Select { path: vec![1] }) {
        QueryOutcome::Focus(path) => assert_eq!(path, vec![1]),
        other => panic!("expected focus, got {other:?}"),
    }
}

#[test]
fn removing_toggling_and_retyping_edit_the_query() {
    let query = Query::parse("solo");
    let (text, at) = installed(apply_action(
        &query,
        &[],
        QueryAction::RemoveChild { parent: vec![], child: 0 },
    ));
    assert_eq!(text, "");
    assert!(at.is_empty());
    assert!(matches!(
        apply_action(&query, &[], QueryAction::RemoveChild { parent: vec![], child: 3 }),
        QueryOutcome::Keep
    ));
    let (text, _) = installed(apply_action(&query, &[], QueryAction::ToggleNot { path: vec![0] }));
    assert_eq!(text, "-solo");
    let pair = Query::parse("a b");
    let (text, _) = installed(apply_action(&pair, &[], QueryAction::SetOp { path: vec![], op: BoolOp::Or }));
    assert_eq!(text, "OR(a b)");
}
