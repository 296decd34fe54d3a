//! The edits the query tree editor asks for.
use vstd::prelude::*;

use crate::model::{
    group_at, sub_at, term_expr, terms_of, toggled_at, with_group_at, without_atom, AtomV, BoolOp,
    ExprV, Query, TagPolarity, term_views,
};
use crate::text::{decimal, decimal_of, join, string_from, words};

verus! {

/// An edit of the working query, by the path of the group or child it concerns.
#[derive(Debug)]
pub enum QueryAction {
    Select { path: Vec<usize> },
    SetOp { path: Vec<usize>, op: BoolOp },
    ToggleNot { path: Vec<usize> },
    RemoveChild { parent: Vec<usize>, child: usize },
    AddGroup { op: BoolOp },
}

/// The path's slots counted from 1, in decimal.
pub open spec fn slot_names(path: Seq<usize>) -> Seq<Seq<char>> {
    Seq::new(path.len(), |k: int| decimal((path[k] + 1) as nat))
}

/// A group's title: `root`, or `g` and its one-based slots joined by dots.
pub open spec fn title_of(path: Seq<usize>) -> Seq<char> {
    if path.len() == 0 { "root"@ } else { seq!['g'] + join(slot_names(path), '.') }
}

pub fn group_title(path: &[usize]) -> (r: String)
    requires
        forall|k: int| 0 <= k < path@.len() ==> #[trigger] path@[k] < usize::MAX,
    ensures
        r@ == title_of(path@),
{
    if path.len() == 0 {
        return String::from_str("root");
    }
    let mut out: Vec<char> = vec!['g'];
    let mut k: usize = 0;
    while k < path.len()
        invariant
            k <= path@.len(),
            forall|m: int| 0 <= m < path@.len() ==> #[trigger] path@[m] < usize::MAX,
            out@ == seq!['g'] + join(slot_names(path@).take(k as int), '.'),
        decreases path.len() - k,
    {
        let ghost before = out@;
        if k > 0 {
            out.push('.');
        }
        let digits = decimal_of((path[k] + 1) as u64);
        let ghost mid = out@;
        let mut j: usize = 0;
        while j < digits.len()
            invariant
                j <= digits@.len(),
                out@ == mid + digits@.take(j as int),
            decreases digits.len() - j,
        {
            out.push(digits[j]);
            assert(out@ =~= mid + digits@.take(j + 1));
            j = j + 1;
        }
        proof {
            assert(digits@.take(j as int) =~= digits@);
            let names = slot_names(path@);
            assert(names.take(k + 1).drop_last() =~= names.take(k as int));
            assert(names.take(k + 1).last() == digits@);
            if k == 0 {
                assert(names.take(1) =~= seq![digits@]);
                assert(out@ =~= seq!['g'] + digits@);
            } else {
                assert(out@ =~= seq!['g'] + (join(names.take(k as int), '.').push('.') + digits@));
            }
        }
        k = k + 1;
    }
    assert(slot_names(path@).take(k as int) =~= slot_names(path@));
    string_from(&out)
}

/// The group's title after a filled diamond when it is the active group, an empty one
/// otherwise.
pub fn group_label(path: &[usize], active: bool) -> (r: String)
    requires
        forall|k: int| 0 <= k < path@.len() ==> #[trigger] path@[k] < usize::MAX,
    ensures
        r@ == (if active { seq!['◆', ' '] } else { seq!['◇', ' '] }) + title_of(path@),
{
    let mut out = String::from_str(if active { "◆ " } else { "◇ " });
    proof {
        reveal_strlit("◆ ");
        reveal_strlit("◇ ");
    }
    let title = group_title(path);
    out.append(title.as_str());
    out
}

/// How deep groups may nest below the root.
pub const MAX_GROUP_DEPTH: usize = 8;

/// What an editor action does to the working query and the active group.
#[derive(Debug)]
pub enum QueryOutcome {
    /// Nothing changes.
    Keep,
    /// The active group moves to this path; the query stays.
    Focus(Vec<usize>),
    /// This query replaces the working one, with this active group.
    Install(Query, Vec<usize>),
    /// No group was added: the active group is already nested as deep as groups may go.
    Capped { notice: String },
}

/// The group path an action selects: the path itself when it names a group, else the root.
pub open spec fn clamped(e: ExprV, path: Seq<usize>) -> Seq<usize> {
    if group_at(e, path) is Some { path } else { Seq::empty() }
}

/// What `action` does to query `e` whose active group is `active`.
pub open spec fn action_outcome(e: ExprV, active: Seq<usize>, action: &QueryAction, r: &QueryOutcome) -> bool {
    match action {
        QueryAction::Select { path } => if clamped(e, path@) == active {
            r is Keep
        } else {
            r matches QueryOutcome::Focus(p) && p@ == clamped(e, path@)
        },
        QueryAction::SetOp { path, op } => match group_at(e, path@) {
            Some((_, cs)) => r matches QueryOutcome::Install(q, at)
                && q@ == with_group_at(e, path@, *op, cs) && at@ == active,
            None => r is Keep,
        },
        QueryAction::ToggleNot { path } => match sub_at(e, path@) {
            Some(_) => r matches QueryOutcome::Install(q, at) && q@ == toggled_at(e, path@) && at@ == active,
            None => r is Keep,
        },
        QueryAction::RemoveChild { parent, child } => match group_at(e, parent@) {
            Some((op, cs)) => if *child < cs.len() {
                r matches QueryOutcome::Install(q, at)
                    && q@ == with_group_at(e, parent@, op, cs.remove(*child as int)) && at@ == parent@
            } else {
                r is Keep
            },
            None => r is Keep,
        },
        QueryAction::AddGroup { op } => if active.len() >= MAX_GROUP_DEPTH {
            r matches QueryOutcome::Capped { notice } && notice@ == "group nesting is capped at 8"@
        } else {
            match group_at(e, active) {
                Some((gop, cs)) => r matches QueryOutcome::Install(q, at)
                    && q@ == with_group_at(e, active, gop, cs.push(ExprV::Group(*op, Seq::empty())))
                    && at@ == active.push(cs.len() as usize),
                None => r is Keep,
            }
        },
    }
}

/// Decides what an editor action does to the working query and its active group.
pub fn apply_action(query: &Query, active_group: &[usize], action: QueryAction) -> (r: QueryOutcome)
    ensures
        action_outcome(query@, active_group@, &action, &r),
{
    match action {
        QueryAction::Select { path } => {
            let target = query.clamp_group_path(&path);
            if same_path(&target, active_group) {
                QueryOutcome::Keep
            } else {
                QueryOutcome::Focus(target)
            }
        },
        QueryAction::SetOp { path, op } => {
            let mut next = query.copy();
            if next.set_group_op(&path, op) {
                QueryOutcome::Install(next, vstd::slice::slice_to_vec(active_group))
            } else {
                QueryOutcome::Keep
            }
        },
        QueryAction::ToggleNot { path } => {
            let mut next = query.copy();
            if next.toggle_not(&path) {
                QueryOutcome::Install(next, vstd::slice::slice_to_vec(active_group))
            } else {
                QueryOutcome::Keep
            }
        },
        QueryAction::RemoveChild { parent, child } => {
            let mut next = query.copy();
            if next.remove_child(&parent, child) {
                QueryOutcome::Install(next, parent)
            } else {
                QueryOutcome::Keep
            }
        },
        QueryAction::AddGroup { op } => {
            if active_group.len() >= MAX_GROUP_DEPTH {
                let notice = String::from_str("group nesting is capped at 8");
                proof { reveal_strlit("group nesting is capped at 8"); }
                return QueryOutcome::Capped { notice };
            }
            let mut next = query.copy();
            match next.push_group(active_group, op) {
                Some(path) => QueryOutcome::Install(next, path),
                None => QueryOutcome::Keep,
            }
        },
    }
}

/// `e` after adding one term to the group at `path`, as `Query::push_atom` does.
pub open spec fn pushed_term(e: ExprV, path: Seq<usize>, t: (AtomV, TagPolarity)) -> ExprV {
    match group_at(e, path) {
        Some((op, cs)) => with_group_at(e, path, op, without_atom(cs, t.0).push(term_expr(t.0, t.1))),
        None => e,
    }
}

/// `e` after adding the terms to the group at `path`, one after another.
pub open spec fn pushed_terms(e: ExprV, path: Seq<usize>, ts: Seq<(AtomV, TagPolarity)>) -> ExprV
    decreases ts.len(),
{
    if ts.len() == 0 {
        e
    } else {
        pushed_term(pushed_terms(e, path, ts.drop_last()), path, ts.last())
    }
}

/// Commits the tag entry: each search term typed there joins the active group; an entry
/// with no term changes nothing.
pub fn commit_entry(query: &Query, active_group: &[usize], entry: &str) -> (r: QueryOutcome)
    ensures
        if terms_of(words(entry@)).len() == 0 {
            r is Keep
        } else {
            r matches QueryOutcome::Install(q, at)
                && q@ == pushed_terms(query@, active_group@, terms_of(words(entry@)))
                && at@ == active_group@
        },
{
    let terms = Query::parse_terms(entry);
    let ghost tv = term_views(terms@);
    if terms.len() == 0 {
        return QueryOutcome::Keep;
    }
    let mut next = query.copy();
    let mut i: usize = 0;
    while i < terms.len()
        invariant
            i <= terms@.len() == tv.len(),
            tv == term_views(terms@),
            next@ == pushed_terms(query@, active_group@, tv.take(i as int)),
        decreases terms.len() - i,
    {
        let term = &terms[i];
        let ghost before = next@;
        let _pushed = next.push_atom(active_group, term.atom.copy(), term.polarity);
        assert(tv.take(i + 1).drop_last() =~= tv.take(i as int));
        assert(tv.take(i + 1).last() == tv[i as int]);
        i = i + 1;
    }
    assert(tv.take(i as int) =~= tv);
    QueryOutcome::Install(next, vstd::slice::slice_to_vec(active_group))
}

/// Groups nest at most `MAX_GROUP_DEPTH` deep: adding a group never yields a deeper path.
pub proof fn lemma_added_group_within_cap(e: ExprV, active: Seq<usize>, op: BoolOp, r: &QueryOutcome)
    requires
        action_outcome(e, active, &QueryAction::AddGroup { op }, r),
    ensures
        r matches QueryOutcome::Install(_, at) ==> at@.len() <= MAX_GROUP_DEPTH,
{
}

fn same_path(a: &[usize], b: &[usize]) -> (r: bool)
    ensures
        r == (a@ == b@),
{
    if a.len() != b.len() {
        return false;
    }
    let mut k: usize = 0;
    while k < a.len()
        invariant
            k <= a@.len() == b@.len(),
            forall|j: int| 0 <= j < k ==> a@[j] == b@[j],
        decreases a.len() - k,
    {
        if a[k] != b[k] {
            return false;
        }
        k = k + 1;
    }
    assert(a@ =~= b@);
    true
}

} // verus!
