//! Editing state of the saved-filter card and the folder rename.
use vstd::prelude::*;

use crate::config::{compacted, FilterName, SavedFilter};
use crate::filter_bank::{name_taken, names_sorted, spare, spare_base, spared, taken};
use crate::model::Query;

verus! {

/// Where an in-place rename of the active filter stands.
#[derive(Clone, Copy, Debug, PartialEq, Eq, Structural)]
pub enum NameEdit {
    Idle,
    Arming,
    Editing,
}

impl Default for NameEdit {
    fn default() -> (r: NameEdit)
        ensures
            r == NameEdit::Idle,
    {
        NameEdit::Idle
    }
}

/// A folder rename in flight between frames.
#[derive(Debug)]
pub struct ShelfEdit {
    pub shelf: usize,
    pub name: String,
    pub focus: bool,
}

/// What renaming the active filter to the typed name comes to.
#[derive(Debug)]
pub enum RenamePlan {
    /// No filter is active.
    NoActive,
    /// The typed text holds no word.
    NeedsName,
    /// The typed name is the active filter's own.
    Unchanged,
    /// Another filter already carries the typed name.
    Taken(FilterName),
    /// The active filter `old` becomes `new`.
    Rename { old: FilterName, new: FilterName },
}

/// The plan for renaming `active` to the name typed as `entry`.
pub open spec fn rename_plan(active: Option<Seq<char>>, entry: Seq<char>, fs: Seq<SavedFilter>, r: &RenamePlan) -> bool {
    match active {
        None => r is NoActive,
        Some(old) => if compacted(entry).len() == 0 {
            r is NeedsName
        } else if compacted(entry) == old {
            r is Unchanged
        } else if name_taken(fs, compacted(entry)) {
            r matches RenamePlan::Taken(n) && n@ == compacted(entry)
        } else {
            r matches RenamePlan::Rename { old: o, new: n } && o@ == old && n@ == compacted(entry)
        },
    }
}

pub open spec fn name_of(active: &Option<FilterName>) -> Option<Seq<char>> {
    match active {
        Some(n) => Some(n@),
        None => None,
    }
}

/// Decides a rename of the active filter to the typed name.
pub fn plan_rename(active: &Option<FilterName>, entry: &str, filters: &[SavedFilter]) -> (r: RenamePlan)
    requires
        names_sorted(filters@),
    ensures
        rename_plan(name_of(active), entry@, filters@, &r),
{
    let old = match active {
        Some(old) => old,
        None => return RenamePlan::NoActive,
    };
    let new = match FilterName::forge(entry) {
        Some(new) => new,
        None => return RenamePlan::NeedsName,
    };
    let a = crate::text::chars_of(old.as_str());
    let b = crate::text::chars_of(new.as_str());
    if crate::model::same_chars(&a, &b) {
        return RenamePlan::Unchanged;
    }
    if taken(&new, filters) {
        return RenamePlan::Taken(new);
    }
    RenamePlan::Rename { old: old.copy(), new }
}

impl RenamePlan {
    /// The status line the plan reports, if any.
    pub fn notice(&self) -> (r: Option<String>)
        ensures
            match self {
                RenamePlan::NoActive => r matches Some(t) && t@ == "no active filter to rename"@,
                RenamePlan::NeedsName => r matches Some(t) && t@ == "rename needs a nonempty filter name"@,
                RenamePlan::Unchanged => r is None,
                RenamePlan::Taken(n) => r matches Some(t) && t@ == "filter `"@ + n@ + "` already exists"@,
                RenamePlan::Rename { old, new } => r matches Some(t) && t@ == "renamed filter `"@ + old@ + "` → `"@ + new@ + "`"@,
            },
    {
        match self {
            RenamePlan::NoActive => Some(String::from_str("no active filter to rename")),
            RenamePlan::NeedsName => Some(String::from_str("rename needs a nonempty filter name")),
            RenamePlan::Unchanged => None,
            RenamePlan::Taken(n) => {
                let mut t = String::from_str("filter `");
                t.append(n.as_str());
                t.append("` already exists");
                Some(t)
            },
            RenamePlan::Rename { old, new } => {
                let mut t = String::from_str("renamed filter `");
                t.append(old.as_str());
                t.append("` → `");
                t.append(new.as_str());
                t.append("`");
                Some(t)
            },
        }
    }
}

/// The name the working query is saved under: the typed name, else the active filter's,
/// else a free name grown from the query.
pub fn save_name(entry: &str, active: &Option<FilterName>, query: &Query, filters: &[SavedFilter]) -> (r: FilterName)
    requires
        names_sorted(filters@),
        filters@.len() < 0xffff_ffff_ffff_fff0,
    ensures
        if compacted(entry@).len() > 0 {
            r@ == compacted(entry@)
        } else {
            match active {
                Some(a) => r@ == a@,
                None => spared(filters@, spare_base(query@), r@),
            }
        },
{
    match FilterName::forge(entry) {
        Some(name) => name,
        None => match active {
            Some(a) => a.copy(),
            None => spare(query, filters),
        },
    }
}

} // verus!
