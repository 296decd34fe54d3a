//! Restoring the workbench at start-up from the Filter Library and the Session State.
use vstd::prelude::*;

use crate::config::FilterName;
use crate::configuration::{FilterLibrary, FilterSelection, Folder, SavedFilter, SessionState, ViewerSession, WaterMode};
use crate::model::{same_chars, Query, Sort};
use crate::query_ui::clamped;
use crate::text::chars_of;

verus! {

/// The fewest images a gallery row shows.
pub const MIN_IMAGES_PER_ROW: u16 = 1;

/// The most images a gallery row shows.
pub const MAX_IMAGES_PER_ROW: u16 = 12;

/// The workbench as it reopens.
#[derive(Debug)]
pub struct Restored {
    pub active_filter: Option<FilterName>,
    pub query: Query,
    pub active_group: Vec<usize>,
    pub images_per_row: u16,
    /// For each folder of the library, in order, whether it is shown open.
    pub shelf_open: Vec<bool>,
    pub sort: Sort,
    pub water: WaterMode,
    pub viewer_tags_open: bool,
    pub viewer: Option<ViewerSession>,
}

/// The first filter of `fs` with this name.
pub open spec fn first_named(fs: Seq<SavedFilter>, name: Seq<char>) -> Option<SavedFilter>
    decreases fs.len(),
{
    if fs.len() == 0 {
        None
    } else if fs[0].name@ == name {
        Some(fs[0])
    } else {
        first_named(fs.drop_first(), name)
    }
}

/// The first filter with this name in the folders, folder by folder.
pub open spec fn first_named_in_folders(folders: Seq<Folder>, name: Seq<char>) -> Option<SavedFilter>
    decreases folders.len(),
{
    if folders.len() == 0 {
        None
    } else {
        match first_named(folders[0].filters@, name) {
            Some(f) => Some(f),
            None => first_named_in_folders(folders.drop_first(), name),
        }
    }
}

/// The library's filter with this name: the unfiled ones first, then the folders.
pub open spec fn library_filter(lib: &FilterLibrary, name: Seq<char>) -> Option<SavedFilter> {
    match first_named(lib.unfiled@, name) {
        Some(f) => Some(f),
        None => first_named_in_folders(lib.folders@, name),
    }
}

/// The saved filter the session had selected, when the library still has it.
pub open spec fn chosen_filter(lib: &FilterLibrary, session: &SessionState) -> Option<SavedFilter> {
    match session.filter {
        FilterSelection::Saved { name } => library_filter(lib, name@),
        _ => None,
    }
}

/// Some text of `v` is `name`.
pub open spec fn named_in(v: Seq<String>, name: Seq<char>) -> bool {
    exists|j: int| 0 <= j < v.len() && #[trigger] v[j]@ == name
}

pub open spec fn clamp_row(n: u16) -> u16 {
    if n < MIN_IMAGES_PER_ROW { MIN_IMAGES_PER_ROW } else if n > MAX_IMAGES_PER_ROW { MAX_IMAGES_PER_ROW } else { n }
}

fn same_text(a: &str, b: &str) -> (r: bool)
    ensures
        r == (a@ == b@),
{
    let x = chars_of(a);
    let y = chars_of(b);
    same_chars(&x, &y)
}

fn find_named<'a>(fs: &'a Vec<SavedFilter>, name: &FilterName) -> (r: Option<&'a SavedFilter>)
    ensures
        match first_named(fs@, name@) {
            Some(f) => r matches Some(g) && *g == f,
            None => r is None,
        },
{
    let mut i: usize = 0;
    assert(fs@.skip(0) =~= fs@);
    while i < fs.len()
        invariant
            i <= fs@.len(),
            first_named(fs@, name@) == first_named(fs@.skip(i as int), name@),
        decreases fs.len() - i,
    {
        assert(fs@.skip(i as int)[0] == fs@[i as int]);
        assert(fs@.skip(i as int).drop_first() =~= fs@.skip(i + 1));
        if same_text(fs[i].name.as_str(), name.as_str()) {
            return Some(&fs[i]);
        }
        i = i + 1;
    }
    assert(fs@.skip(i as int).len() == 0);
    None
}

fn find_in_library<'a>(lib: &'a FilterLibrary, name: &FilterName) -> (r: Option<&'a SavedFilter>)
    ensures
        match library_filter(lib, name@) {
            Some(f) => r matches Some(g) && *g == f,
            None => r is None,
        },
{
    match find_named(&lib.unfiled, name) {
        Some(f) => return Some(f),
        None => {},
    }
    let mut k: usize = 0;
    assert(lib.folders@.skip(0) =~= lib.folders@);
    while k < lib.folders.len()
        invariant
            k <= lib.folders@.len(),
            first_named(lib.unfiled@, name@) is None,
            first_named_in_folders(lib.folders@, name@) == first_named_in_folders(lib.folders@.skip(k as int), name@),
        decreases lib.folders.len() - k,
    {
        assert(lib.folders@.skip(k as int)[0] == lib.folders@[k as int]);
        assert(lib.folders@.skip(k as int).drop_first() =~= lib.folders@.skip(k + 1));
        match find_named(&lib.folders[k].filters, name) {
            Some(f) => return Some(f),
            None => {},
        }
        k = k + 1;
    }
    assert(lib.folders@.skip(k as int).len() == 0);
    None
}

fn closed(names: &Vec<String>, name: &str) -> (r: bool)
    ensures
        r == named_in(names@, name@),
{
    let mut j: usize = 0;
    while j < names.len()
        invariant
            j <= names@.len(),
            forall|m: int| 0 <= m < j ==> #[trigger] names@[m]@ != name@,
        decreases names.len() - j,
    {
        if same_text(names[j].as_str(), name) {
            return true;
        }
        j = j + 1;
    }
    false
}

/// Reopens the workbench: each folder open unless the session closed it; the session's
/// saved filter while the library still has it, with that filter's query, otherwise the
/// session's own query; the session's group, clamped to a group of that query; the row
/// width clamped to `MIN_IMAGES_PER_ROW..=MAX_IMAGES_PER_ROW`; sort, water and viewer as
/// the session left them.
pub fn restore(library: &FilterLibrary, session: &SessionState) -> (r: Restored)
    ensures
        match chosen_filter(library, session) {
            Some(f) => r.active_filter matches Some(n) && n@ == f.name@ && r.query@ == f.query@,
            None => r.active_filter is None && r.query@ == session.query.tree@,
        },
        r.active_group@ == clamped(r.query@, session.query.active_group@),
        r.images_per_row == clamp_row(session.images_per_row),
        r.shelf_open@.len() == library.folders@.len(),
        forall|i: int| 0 <= i < library.folders@.len() ==>
            #[trigger] r.shelf_open@[i] == !named_in(session.closed_folders@, library.folders@[i].name@),
        r.sort == session.sort,
        r.water == session.water,
        r.viewer_tags_open == session.viewer_tags_open,
        r.viewer == session.viewer,
{
    let mut shelf_open: Vec<bool> = Vec::new();
    let mut i: usize = 0;
    while i < library.folders.len()
        invariant
            i <= library.folders@.len(),
            shelf_open@.len() == i,
            forall|k: int| 0 <= k < i ==>
                #[trigger] shelf_open@[k] == !named_in(session.closed_folders@, library.folders@[k].name@),
        decreases library.folders.len() - i,
    {
        shelf_open.push(!closed(&session.closed_folders, library.folders[i].name.as_str()));
        i = i + 1;
    }
    let found = match &session.filter {
        FilterSelection::Saved { name } => find_in_library(library, name),
        _ => None,
    };
    let (active_filter, query) = match found {
        Some(f) => (Some(f.name.copy()), f.query.copy()),
        None => (None, session.query.tree.copy()),
    };
    let active_group = query.clamp_group_path(&session.query.active_group);
    let images_per_row = if session.images_per_row < MIN_IMAGES_PER_ROW {
        MIN_IMAGES_PER_ROW
    } else if session.images_per_row > MAX_IMAGES_PER_ROW {
        MAX_IMAGES_PER_ROW
    } else {
        session.images_per_row
    };
    Restored {
        active_filter,
        query,
        active_group,
        images_per_row,
        shelf_open,
        sort: session.sort,
        water: session.water,
        viewer_tags_open: session.viewer_tags_open,
        viewer: session.viewer,
    }
}

} // verus!
