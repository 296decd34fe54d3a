//! The viewer's settings, its Filter Library of saved filters, and its session state.
use vstd::prelude::*;

pub use crate::config::{FilterName, QueryConfig};

use crate::config::valid_name;
use crate::date::DateRange;
use crate::model::{AtomV, BoolOp, ExprV, PostId, Query, QueryAtom, RatingClass, Sort, TagPolarity};
use crate::text::{chars_of, join};
use crate::xdg::{joined, path_is_absolute, path_join, prefix_free, relative_text, rooted_text};

verus! {

/// Whether the mirror crawls in the background.
#[derive(Clone, Copy, Debug, PartialEq, Eq, Structural)]
pub enum MirrorPolicy {
    Active,
    Paused,
}

impl MirrorPolicy {
    pub fn active(self) -> (r: bool)
        ensures
            r == (self == MirrorPolicy::Active),
    {
        self == MirrorPolicy::Active
    }
}

#[derive(Clone, Copy, Debug, PartialEq, Eq, Structural)]
pub struct MirrorConfig {
    pub policy: MirrorPolicy,
}

impl Default for MirrorConfig {
    fn default() -> (r: MirrorConfig)
        ensures
            r.policy == MirrorPolicy::Active,
    {
        MirrorConfig { policy: MirrorPolicy::Active }
    }
}

/// A Danbooru login and the file that holds its API key.
#[derive(Debug)]
pub struct DanbooruAccountConfig {
    pub login: String,
    pub api_key_file: String,
}

impl DanbooruAccountConfig {
    /// The key file's path; a relative one is taken beside the configuration file, with
    /// no shell-style expansion. Whether the key file's path is absolute is the platform's
    /// rule; a path without root or prefix on any platform is relative, and one that
    /// opens with `/` comes back as it is wherever the directory has no Windows prefix.
    pub fn resolve_api_key(&self, config_dir: &str) -> (r: String)
        ensures
            relative_text(self.api_key_file@) ==> joined(r@, config_dir@, self.api_key_file@),
            rooted_text(self.api_key_file@) && prefix_free(config_dir@) ==> r@
                == self.api_key_file@,
    {
        let absolute = path_is_absolute(self.api_key_file.as_str());
        resolve_key_path(self.api_key_file.as_str(), config_dir, absolute)
    }
}

/// The key file's path given whether it is absolute: an absolute one as it is, a
/// relative one joined onto the configuration directory.
pub fn resolve_key_path(key_file: &str, config_dir: &str, absolute: bool) -> (r: String)
    ensures
        absolute ==> r@ == key_file@,
        !absolute && relative_text(key_file@) ==> joined(r@, config_dir@, key_file@),
        rooted_text(key_file@) && prefix_free(config_dir@) ==> r@ == key_file@,
{
    if absolute {
        String::from_str(key_file)
    } else {
        path_join(config_dir, key_file)
    }
}

/// The optional authenticated Danbooru account.
#[derive(Debug)]
pub struct DanbooruConfig {
    pub account: Option<DanbooruAccountConfig>,
}

impl Default for DanbooruConfig {
    fn default() -> (r: DanbooruConfig)
        ensures
            r.account is None,
    {
        DanbooruConfig { account: None }
    }
}

/// The small, human-edited application settings.
#[derive(Debug)]
pub struct Configuration {
    pub prefetch_on_hover: bool,
    pub mirror: MirrorConfig,
    pub danbooru: DanbooruConfig,
}

impl Default for Configuration {
    fn default() -> (r: Configuration)
        ensures
            r.prefetch_on_hover,
            r.mirror.policy == MirrorPolicy::Active,
            r.danbooru.account is None,
    {
        Configuration {
            prefetch_on_hover: true,
            mirror: MirrorConfig::default(),
            danbooru: DanbooruConfig::default(),
        }
    }
}

/// A named query of the Filter Library.
#[derive(Debug)]
pub struct SavedFilter {
    pub name: FilterName,
    pub query: Query,
}

impl SavedFilter {
    pub fn new(name: FilterName, query: Query) -> (r: SavedFilter)
        ensures
            r.name@ == name@,
            r.query@ == query@,
    {
        SavedFilter { name, query }
    }
}

/// An ordered folder of saved filters.
#[derive(Debug)]
pub struct Folder {
    pub name: String,
    pub filters: Vec<SavedFilter>,
}

/// The user's saved filters: those outside any folder, and the folders.
#[derive(Debug)]
pub struct FilterLibrary {
    pub unfiled: Vec<SavedFilter>,
    pub folders: Vec<Folder>,
}

impl Default for FilterLibrary {
    fn default() -> (r: FilterLibrary)
        ensures
            r.unfiled@.len() == 0,
            r.folders@.len() == 0,
    {
        FilterLibrary { unfiled: Vec::new(), folders: Vec::new() }
    }
}

/// The name of the filter a first launch seeds.
pub const SAFE_DEFAULT_FILTER: &'static str = "general rating";

pub open spec fn safe_default_name() -> Seq<char> {
    "general rating"@
}

/// The query of the seeded filter: general-rated posts only.
pub open spec fn safe_default_query() -> ExprV {
    ExprV::Group(BoolOp::And, seq![ExprV::Atom(AtomV::Rating(RatingClass::General))])
}

/// The seeded filter: `general rating`, matching `rating:g`.
pub fn safe_default_filter() -> (r: Option<SavedFilter>)
    ensures
        r matches Some(f) && f.name@ == safe_default_name() && f.query@ == safe_default_query(),
{
    let chars = chars_of(SAFE_DEFAULT_FILTER);
    proof {
        reveal_strlit("general rating");
        let general: Seq<char> = "general"@;
        let rating: Seq<char> = "rating"@;
        reveal_strlit("general");
        reveal_strlit("rating");
        assert(general.push(' ') + rating =~= safe_default_name());
        crate::text::lemma_words_single(general);
        assert(join(seq![general], ' ') == general);
        crate::config::lemma_valid_push_word(general, rating);
    }
    let name = FilterName::from_valid(&chars);
    let mut tree = Query::empty();
    let _added = tree.push_atom(&[], QueryAtom::Rating(RatingClass::General), TagPolarity::Positive);
    proof {
        let empty = Seq::<ExprV>::empty();
        let a = AtomV::Rating(RatingClass::General);
        empty.lemma_filter_len(|c: ExprV| crate::model::atom_of(c) != Some(a));
        assert(crate::model::without_atom(empty, a) =~= empty);
        assert(empty.push(ExprV::Atom(a)) =~= seq![ExprV::Atom(a)]);
    }
    Some(SavedFilter::new(name, tree))
}

impl FilterLibrary {
    /// The library a first launch starts with: the one seeded filter.
    pub fn first_run() -> (r: FilterLibrary)
        ensures
            r.unfiled@.len() == 1,
            r.unfiled@[0].name@ == safe_default_name(),
            r.unfiled@[0].query@ == safe_default_query(),
            r.folders@.len() == 0,
    {
        let mut library = FilterLibrary::default();
        if let Some(filter) = safe_default_filter() {
            library.unfiled.push(filter);
        }
        library
    }
}

/// A saved filter as older libraries stored it, with its tree and active group.
#[derive(Debug)]
pub struct LegacySavedFilter {
    pub name: FilterName,
    pub tree: Query,
    pub active_group: Vec<usize>,
}

impl LegacySavedFilter {
    /// The current form keeps the name and the query; the active group is dropped.
    pub fn migrate(self) -> (r: SavedFilter)
        ensures
            r.name@ == self.name@,
            r.query@ == self.tree@,
    {
        SavedFilter::new(self.name, self.tree)
    }
}

/// A folder as older libraries stored it.
#[derive(Debug)]
pub struct LegacyFolder {
    pub name: String,
    pub filters: Vec<LegacySavedFilter>,
}

/// An older library: saved filters and shelves.
#[derive(Debug)]
pub struct LegacyFilterLibrary {
    pub saved: Vec<LegacySavedFilter>,
    pub shelves: Vec<LegacyFolder>,
}

/// `rs` holds each of `ls` migrated, in order.
pub open spec fn migrated(ls: Seq<LegacySavedFilter>, rs: Seq<SavedFilter>) -> bool {
    &&& rs.len() == ls.len()
    &&& forall|k: int| 0 <= k < rs.len() ==> #[trigger] rs[k].name@ == ls[k].name@ && rs[k].query@ == ls[k].tree@
}

/// Every filter migrated, in order.
pub fn migrate_filters(filters: Vec<LegacySavedFilter>) -> (r: Vec<SavedFilter>)
    ensures
        migrated(filters@, r@),
{
    let ghost all = filters@;
    let total = filters.len();
    let mut rest = filters;
    let mut out: Vec<SavedFilter> = Vec::new();
    let mut k: usize = 0;
    while rest.len() > 0
        invariant
            k <= all.len(),
            all.len() == total,
            rest@ == all.skip(k as int),
            out@.len() == k,
            forall|m: int| 0 <= m < k ==> #[trigger] out@[m].name@ == all[m].name@ && out@[m].query@ == all[m].tree@,
        decreases rest.len(),
    {
        assert(k < all.len());
        let f = rest.remove(0);
        assert(f == all[k as int]);
        assert(rest@ =~= all.skip(k + 1));
        out.push(f.migrate());
        k = k + 1;
    }
    assert(all.skip(k as int).len() == 0);
    assert(migrated(all, out@));
    out
}

/// Which layout a Filter Library file uses.
#[derive(Clone, Copy, Debug, PartialEq, Eq, Structural)]
pub enum LibraryForm {
    /// `saved` and `shelves`, which migrate on reading.
    Legacy,
    /// `filter` and `folder`.
    Current,
}

/// The layout of a Filter Library file by the tables it has: the legacy `saved`/`shelves`
/// and the current `filter`/`folder` cannot be mixed; a file with neither is current.
pub fn library_form(legacy: bool, current: bool) -> (r: Result<LibraryForm, &'static str>)
    ensures
        legacy && current ==> (r matches Err(m) && m@ == "legacy `saved`/`shelves` cannot be combined with `filter`/`folder`"@),
        legacy && !current ==> r == Ok::<LibraryForm, &'static str>(LibraryForm::Legacy),
        !legacy ==> r == Ok::<LibraryForm, &'static str>(LibraryForm::Current),
{
    if legacy && current {
        Err("legacy `saved`/`shelves` cannot be combined with `filter`/`folder`")
    } else if legacy {
        Ok(LibraryForm::Legacy)
    } else {
        Ok(LibraryForm::Current)
    }
}

impl LegacyFilterLibrary {
    /// The current library: saved filters become unfiled ones, shelves become folders,
    /// everything in order.
    pub fn migrate(self) -> (r: FilterLibrary)
        ensures
            migrated(self.saved@, r.unfiled@),
            r.folders@.len() == self.shelves@.len(),
            forall|k: int| 0 <= k < r.folders@.len() ==> (#[trigger] r.folders@[k]).name == self.shelves@[k].name
                && migrated(self.shelves@[k].filters@, r.folders@[k].filters@),
    {
        let unfiled = migrate_filters(self.saved);
        let ghost all = self.shelves@;
        let total = self.shelves.len();
        let mut rest = self.shelves;
        let mut folders: Vec<Folder> = Vec::new();
        let mut k: usize = 0;
        while rest.len() > 0
            invariant
                k <= all.len(),
                all.len() == total,
                rest@ == all.skip(k as int),
                folders@.len() == k,
                forall|m: int| 0 <= m < k ==> (#[trigger] folders@[m]).name == all[m].name
                    && migrated(all[m].filters@, folders@[m].filters@),
            decreases rest.len(),
        {
            assert(k < all.len());
            let shelf = rest.remove(0);
            assert(shelf == all[k as int]);
            assert(rest@ =~= all.skip(k + 1));
            let LegacyFolder { name, filters } = shelf;
            folders.push(Folder { name, filters: migrate_filters(filters) });
            k = k + 1;
        }
        assert(all.skip(k as int).len() == 0);
        FilterLibrary { unfiled, folders }
    }
}

/// The collection a selection draws from.
#[derive(Clone, Copy, Debug, PartialEq, Eq, Structural)]
pub enum Corpus {
    All,
    LocalFavorites,
}

/// What the Filter Library has selected: the scratch query, a saved filter, or the
/// built-in local favorites.
#[derive(Debug)]
pub enum FilterSelection {
    Scratch,
    Saved { name: FilterName },
    LocalFavorites,
}

impl Default for FilterSelection {
    fn default() -> (r: FilterSelection)
        ensures
            r is Scratch,
    {
        FilterSelection::Scratch
    }
}

impl FilterSelection {
    pub fn saved(&self) -> (r: Option<&FilterName>)
        ensures
            match self {
                FilterSelection::Saved { name } => r == Some(name),
                _ => r is None,
            },
    {
        match self {
            FilterSelection::Saved { name } => Some(name),
            _ => None,
        }
    }

    pub fn corpus(&self) -> (r: Corpus)
        ensures
            r == if self is LocalFavorites { Corpus::LocalFavorites } else { Corpus::All },
    {
        match self {
            FilterSelection::LocalFavorites => Corpus::LocalFavorites,
            _ => Corpus::All,
        }
    }
}

/// The view inside an open image viewer.
#[derive(Clone, Copy, Debug, PartialEq, Eq, Structural)]
pub enum ViewerView {
    Image,
    Tree,
}

/// What reopens an image-viewer session.
#[derive(Clone, Copy, Debug, PartialEq, Eq, Structural)]
pub struct ViewerSession {
    pub post: PostId,
    pub gallery_anchor: PostId,
    pub view: ViewerView,
    pub tree_focus: Option<PostId>,
    pub result_horizon: usize,
}

/// How much water the surface shows.
#[derive(Clone, Copy, Debug, PartialEq, Eq, Structural)]
pub enum WaterMode {
    Dry,
    Wet,
    ReallyWet,
}

impl WaterMode {
    pub fn wet(self) -> (r: bool)
        ensures
            r == (self != WaterMode::Dry),
    {
        self != WaterMode::Dry
    }
}

/// How the gallery arranges posts.
#[derive(Clone, Copy, Debug, PartialEq, Eq, Structural)]
pub enum GalleryTopology {
    Ungrouped,
    Grouped,
}

/// Disposable workbench state: folds, selection, scratch query, view settings.
#[derive(Debug)]
pub struct SessionState {
    pub closed_folders: Vec<String>,
    pub panel_folds: Vec<(String, bool)>,
    pub filter: FilterSelection,
    pub query: QueryConfig,
    pub sort: Sort,
    pub gallery: GalleryTopology,
    pub dates: DateRange,
    pub images_per_row: u16,
    pub water: WaterMode,
    pub viewer_tags_open: bool,
    pub viewer: Option<ViewerSession>,
}

impl Default for SessionState {
    fn default() -> (r: SessionState)
        ensures
            r.closed_folders@.len() == 0,
            r.panel_folds@.len() == 0,
            r.filter is Scratch,
            r.query.tree@ == crate::model::empty_and(),
            r.query.active_group@.len() == 0,
            r.sort == Sort::Score,
            r.gallery == GalleryTopology::Ungrouped,
            r.dates.first is None && r.dates.last is None,
            r.images_per_row == 5,
            r.water == WaterMode::Wet,
            !r.viewer_tags_open,
            r.viewer is None,
    {
        SessionState {
            closed_folders: Vec::new(),
            panel_folds: Vec::new(),
            filter: FilterSelection::Scratch,
            query: QueryConfig::default(),
            sort: Sort::Score,
            gallery: GalleryTopology::Ungrouped,
            dates: DateRange::default(),
            images_per_row: 5,
            water: WaterMode::Wet,
            viewer_tags_open: false,
            viewer: None,
        }
    }
}

} // verus!
