//! Saved filters, their names, and the query and pin settings they carry.
use vstd::prelude::*;

use crate::model::{group_at, ExprV, PostId, Query};
use crate::text::{
    chars_of, is_ws, join, join_with, lemma_words_single, split_words, string_from, words,
};

verus! {

/// Text that is a filter name: its words joined by single spaces, and not empty.
pub open spec fn valid_name(s: Seq<char>) -> bool {
    &&& s.len() > 0
    &&& s == join(words(s), ' ')
}

/// The name `forge` makes of raw text: its white-space separated words, joined by one space.
pub open spec fn compacted(raw: Seq<char>) -> Seq<char> {
    join(words(raw), ' ')
}

pub open spec fn neutral_name() -> Seq<char> {
    seq!['n', 'e', 'u', 't', 'r', 'a', 'l']
}

/// The name of a saved filter: compacted white space, never empty.
#[derive(Debug)]
pub struct FilterName(String);

impl View for FilterName {
    type V = Seq<char>;

    closed spec fn view(&self) -> Seq<char> {
        self.0@
    }
}

impl FilterName {
    #[verifier::type_invariant]
    closed spec fn wf(self) -> bool {
        valid_name(self.0@)
    }

    /// The words of `raw` joined by single spaces; `None` when `raw` has no word.
    pub fn forge(raw: &str) -> (r: Option<FilterName>)
        ensures
            r matches Some(n) <==> compacted(raw@).len() > 0,
            r matches Some(n) ==> n@ == compacted(raw@),
    {
        let chars = chars_of(raw);
        FilterName::forge_chars(&chars)
    }

    pub fn forge_chars(raw: &[char]) -> (r: Option<FilterName>)
        ensures
            r matches Some(n) <==> compacted(raw@).len() > 0,
            r matches Some(n) ==> n@ == compacted(raw@),
    {
        let pieces = split_words(raw);
        let joined = join_with(&pieces, ' ');
        proof {
            assert(pieces@.map_values(|p: Vec<char>| p@) =~= words(raw@));
        }
        if joined.len() == 0 {
            None
        } else {
            proof { lemma_compacted_is_valid(raw@); }
            Some(FilterName(string_from(&joined)))
        }
    }

    /// The name used when nothing better is at hand.
    pub fn neutral() -> (r: FilterName)
        ensures
            r@ == neutral_name(),
    {
        let chars: Vec<char> = vec!['n', 'e', 'u', 't', 'r', 'a', 'l'];
        proof {
            assert(chars@ =~= neutral_name());
            lemma_words_single(neutral_name());
            assert(join(seq![neutral_name()], ' ') == neutral_name());
        }
        FilterName(string_from(&chars))
    }

    pub fn as_str(&self) -> (r: &str)
        ensures
            r@ == self@,
            valid_name(r@),
    {
        proof { use_type_invariant(self); }
        self.0.as_str()
    }

    pub fn copy(&self) -> (r: FilterName)
        ensures
            r@ == self@,
    {
        proof { use_type_invariant(self); }
        FilterName(self.0.clone())
    }

    /// Builds a name from text that already is one.
    pub fn from_valid(chars: &[char]) -> (r: FilterName)
        requires
            valid_name(chars@),
        ensures
            r@ == chars@,
    {
        FilterName(string_from(chars))
    }
}

/// Every word of `words(s)` is free of white space and not empty.
pub proof fn lemma_words_shape(s: Seq<char>)
    ensures
        forall|k: int| 0 <= k < words(s).len() ==> (#[trigger] words(s)[k]).len() > 0,
        forall|k: int, j: int|
            0 <= k < words(s).len() && 0 <= j < words(s)[k].len() ==> !is_ws(#[trigger] words(s)[k][j]),
    decreases s.len(),
{
    if s.len() > 0 {
        lemma_words_shape(s.drop_last());
        let rest = words(s.drop_last());
        let c = s.last();
        if is_ws(c) {
        } else if s.len() > 1 && !is_ws(s[s.len() - 2]) {
            crate::text::lemma_words_last(s.drop_last());
            let w = words(s);
            assert forall|k: int, j: int|
                0 <= k < w.len() && 0 <= j < w[k].len() implies !is_ws(#[trigger] w[k][j]) by {
                if k < w.len() - 1 {
                    assert(w[k] == rest[k]);
                } else if j < w[k].len() - 1 {
                    assert(w[k][j] == rest.last()[j]);
                }
            }
            assert forall|k: int| 0 <= k < w.len() implies (#[trigger] w[k]).len() > 0 by {
                if k < w.len() - 1 {
                    assert(w[k] == rest[k]);
                }
            }
        } else {
            let w = words(s);
            assert forall|k: int, j: int|
                0 <= k < w.len() && 0 <= j < w[k].len() implies !is_ws(#[trigger] w[k][j]) by {
                if k < w.len() - 1 {
                    assert(w[k] == rest[k]);
                }
            }
            assert forall|k: int| 0 <= k < w.len() implies (#[trigger] w[k]).len() > 0 by {
                if k < w.len() - 1 {
                    assert(w[k] == rest[k]);
                }
            }
        }
    }
}

/// Joining pieces that are free of white space and not empty, then splitting again,
/// gives the pieces back.
pub proof fn lemma_words_of_join(pieces: Seq<Seq<char>>)
    requires
        forall|k: int| 0 <= k < pieces.len() ==> (#[trigger] pieces[k]).len() > 0,
        forall|k: int, j: int|
            0 <= k < pieces.len() && 0 <= j < pieces[k].len() ==> !is_ws(#[trigger] pieces[k][j]),
    ensures
        words(join(pieces, ' ')) == pieces,
    decreases pieces.len(),
{
    if pieces.len() == 0 {
        assert(words(Seq::<char>::empty()) =~= Seq::<Seq<char>>::empty());
    } else if pieces.len() == 1 {
        let p = pieces[0];
        assert forall|j: int| 0 <= j < p.len() implies !is_ws(#[trigger] p[j]) by {
            assert(pieces[0][j] == p[j]);
        }
        lemma_words_single(p);
        assert(seq![p] =~= pieces);
    } else {
        let front = pieces.drop_last();
        let last = pieces.last();
        assert forall|j: int| 0 <= j < last.len() implies !is_ws(#[trigger] last[j]) by {
            assert(pieces[pieces.len() - 1][j] == last[j]);
        }
        assert forall|k: int| 0 <= k < front.len() implies (#[trigger] front[k]).len() > 0 by {
            assert(front[k] == pieces[k]);
        }
        assert forall|k: int, j: int|
            0 <= k < front.len() && 0 <= j < front[k].len() implies !is_ws(#[trigger] front[k][j]) by {
            assert(front[k] == pieces[k]);
        }
        lemma_words_of_join(front);
        crate::text::lemma_words_push_word(join(front, ' '), last);
        assert(front.push(last) =~= pieces);
    }
}

/// `compacted` text is a filter name unless it is empty.
pub proof fn lemma_compacted_is_valid(raw: Seq<char>)
    requires
        compacted(raw).len() > 0,
    ensures
        valid_name(compacted(raw)),
{
    lemma_words_shape(raw);
    lemma_words_of_join(words(raw));
}

/// A name with a space and a word appended is still a name.
pub proof fn lemma_valid_push_word(s: Seq<char>, d: Seq<char>)
    requires
        valid_name(s),
        d.len() > 0,
        forall|k: int| 0 <= k < d.len() ==> !is_ws(#[trigger] d[k]),
    ensures
        valid_name(s.push(' ') + d),
        words(s.push(' ') + d) == words(s).push(d),
{
    crate::text::lemma_words_push_word(s, d);
    if words(s).len() == 0 {
        assert(join(words(s), ' ').len() == 0);
    }
    crate::text::lemma_join_push(words(s), d, ' ');
}

/// The abstract content of a saved filter.
pub struct SavedFilterV {
    pub name: Seq<char>,
    pub tree: ExprV,
    pub active_group: Seq<usize>,
}

/// A named query with the group the editor was pointing at.
#[derive(Debug)]
pub struct SavedFilter {
    pub name: FilterName,
    pub tree: Query,
    pub active_group: Vec<usize>,
}

impl View for SavedFilter {
    type V = SavedFilterV;

    open spec fn view(&self) -> SavedFilterV {
        SavedFilterV { name: self.name@, tree: self.tree@, active_group: self.active_group@ }
    }
}

impl SavedFilter {
    /// A saved filter whose active group is kept only when it names a group of the tree.
    pub fn new(name: FilterName, tree: Query, active_group: Vec<usize>) -> (r: SavedFilter)
        ensures
            r.name@ == name@,
            r.tree@ == tree@,
            r.active_group@ == if group_at(tree@, active_group@) is Some {
                active_group@
            } else {
                Seq::empty()
            },
    {
        let active_group = tree.clamp_group_path(active_group.as_slice());
        SavedFilter { name, tree, active_group }
    }

    pub fn copy(&self) -> (r: SavedFilter)
        ensures
            r@ == self@,
    {
        SavedFilter {
            name: self.name.copy(),
            tree: self.tree.copy(),
            active_group: vstd::slice::slice_to_vec(self.active_group.as_slice()),
        }
    }
}

/// The working query and its active group.
#[derive(Debug)]
pub struct QueryConfig {
    pub tree: Query,
    pub active_group: Vec<usize>,
}

impl QueryConfig {
    pub fn query(&self) -> (r: Query)
        ensures
            r@ == self.tree@,
    {
        self.tree.copy()
    }
}

impl Default for QueryConfig {
    fn default() -> (r: QueryConfig)
        ensures
            r.tree@ == crate::model::empty_and(),
            r.active_group@ == Seq::<usize>::empty(),
    {
        QueryConfig { tree: Query::empty(), active_group: Vec::new() }
    }
}

/// The saved filters and the one in use.
#[derive(Debug)]
pub struct FilterConfig {
    pub active: Option<FilterName>,
    pub saved: Vec<SavedFilter>,
}

impl Default for FilterConfig {
    fn default() -> (r: FilterConfig)
        ensures
            r.active is None,
            r.saved@.len() == 0,
    {
        FilterConfig { active: None, saved: Vec::new() }
    }
}

pub const MIN_WEIGHT: u8 = 1;

pub const MAX_WEIGHT: u8 = 6;

/// A post pinned into the similarity search, with a weight from 1 to 6.
#[derive(Clone, Copy, Debug, PartialEq, Eq, Structural)]
pub struct PinConfig {
    pub id: PostId,
    pub weight: u8,
}

impl PinConfig {
    /// The weight is clamped into `MIN_WEIGHT..=MAX_WEIGHT`.
    pub fn new(id: PostId, weight: u8) -> (r: PinConfig)
        ensures
            r.id == id,
            r.weight == if weight < MIN_WEIGHT {
                MIN_WEIGHT
            } else if weight > MAX_WEIGHT {
                MAX_WEIGHT
            } else {
                weight
            },
    {
        let weight = if weight < MIN_WEIGHT {
            MIN_WEIGHT
        } else if weight > MAX_WEIGHT {
            MAX_WEIGHT
        } else {
            weight
        };
        PinConfig { id, weight }
    }
}

/// Forging a name from a name gives it back: compacting twice compacts once.
pub proof fn lemma_forge_idempotent(raw: Seq<char>)
    requires
        compacted(raw).len() > 0,
    ensures
        compacted(compacted(raw)) == compacted(raw),
{
    lemma_compacted_is_valid(raw);
}

} // verus!
