//! Small decisions of the viewer's workbench: texture names, warm-up keys, the tag being
//! typed, whether a result list changed, and the empty gallery's state.
use vstd::prelude::*;

use crate::model::{sort_label, PostRecord, Query, Sort, ThumbTier};
use crate::model::same_chars;
use crate::text::{chars_of, is_ws, split_words, string_from, trim, trimmed, whitespace, words};

verus! {

/// A texture kind: a thumbnail of a size bucket, or the full image.
#[derive(Clone, Copy, Debug, PartialEq, Eq, Structural)]
pub enum BladeKind {
    Thumb(u8),
    Full,
}

pub open spec fn texture_prefix_of(k: BladeKind) -> Seq<char> {
    match k {
        BladeKind::Thumb(b) => if b == 0 { "post-180"@ } else if b == 1 { "post-360"@ } else { "post-720"@ },
        BladeKind::Full => "full"@,
    }
}

impl BladeKind {
    pub fn texture_prefix(self) -> (r: &'static str)
        ensures
            r@ == texture_prefix_of(self),
    {
        match self {
            BladeKind::Thumb(bucket) => if bucket == 0 {
                "post-180"
            } else if bucket == 1 {
                "post-360"
            } else {
                "post-720"
            },
            BladeKind::Full => "full",
        }
    }
}

/// The identity of a warm-up: the query's text and the sort.
#[derive(Debug)]
pub struct WarmKey {
    pub query: String,
    pub sort: Sort,
}

impl WarmKey {
    pub fn new(query: &Query, sort: Sort) -> (r: WarmKey)
        ensures
            r.query@ == crate::model::query_text(query@),
            r.sort == sort,
    {
        WarmKey { query: query.to_text(), sort }
    }

    /// `sort query`, with `∅` for the empty query.
    pub fn label(&self) -> (r: String)
        ensures
            r@ == sort_label(self.sort) + seq![' '] + if self.query@.len() == 0 { seq!['∅'] } else { self.query@ },
    {
        let mut out = chars_of(self.sort.label());
        out.push(' ');
        let text = chars_of(self.query.as_str());
        if text.len() == 0 {
            out.push('∅');
        } else {
            let ghost front = out@;
            let mut i: usize = 0;
            while i < text.len()
                invariant
                    i <= text@.len(),
                    out@ == front + text@.take(i as int),
                decreases text.len() - i,
            {
                out.push(text[i]);
                assert(out@ =~= front + text@.take(i + 1));
                i = i + 1;
            }
            assert(text@.take(i as int) =~= text@);
        }
        string_from(&out)
    }
}

/// The tag being typed at the end of the entry, and whether it is negated.
#[derive(Debug)]
pub struct ActivePrefix {
    pub body: String,
    pub negative: bool,
}

/// The last word of the entry with a leading `-` (negated) or `+` removed, unless the
/// entry ends in white space or nothing is left.
pub open spec fn active_prefix_of(s: Seq<char>) -> Option<(Seq<char>, bool)> {
    if s.len() > 0 && is_ws(s.last()) {
        None
    } else if words(s).len() == 0 {
        None
    } else {
        let tok = words(s).last();
        let negative = tok.len() > 0 && tok[0] == '-';
        let body = if tok.len() > 0 && (tok[0] == '-' || tok[0] == '+') { tok.drop_first() } else { tok };
        if trim(body).len() > 0 { Some((trim(body), negative)) } else { None }
    }
}

pub fn active_prefix(text: &str) -> (r: Option<ActivePrefix>)
    ensures
        match active_prefix_of(text@) {
            Some((body, negative)) => r matches Some(p) && p.body@ == body && p.negative == negative,
            None => r is None,
        },
{
    let chars = chars_of(text);
    if chars.len() > 0 && whitespace(chars[chars.len() - 1]) {
        return None;
    }
    let pieces = split_words(&chars);
    if pieces.len() == 0 {
        return None;
    }
    let tok = &pieces[pieces.len() - 1];
    assert(tok@ == words(text@).last());
    let negative = tok.len() > 0 && tok[0] == '-';
    let body: Vec<char> = if tok.len() > 0 && (tok[0] == '-' || tok[0] == '+') {
        crate::text::slice_chars(tok.as_slice(), 1, tok.len())
    } else {
        crate::text::slice_chars(tok.as_slice(), 0, tok.len())
    };
    proof {
        if tok@.len() > 0 && (tok@[0] == '-' || tok@[0] == '+') {
            assert(tok@.subrange(1, tok@.len() as int) =~= tok@.drop_first());
        } else {
            assert(tok@.subrange(0, tok@.len() as int) =~= tok@);
        }
    }
    let body = trimmed(&body);
    if body.len() == 0 {
        None
    } else {
        Some(ActivePrefix { body: string_from(&body), negative })
    }
}

fn same_url(a: Option<&str>, b: Option<&str>) -> (r: bool)
    ensures
        r == (crate::model::str_view(a) == crate::model::str_view(b)),
{
    match (a, b) {
        (Some(x), Some(y)) => {
            let xs = chars_of(x);
            let ys = chars_of(y);
            same_chars(&xs, &ys)
        },
        (None, None) => true,
        _ => false,
    }
}

/// The result list changed for the gallery: another length, or a post whose id or
/// medium thumbnail differs at the same place.
pub open spec fn posts_differ(old: Seq<PostRecord>, new: Seq<PostRecord>) -> bool {
    old.len() != new.len() || exists|i: int| 0 <= i < old.len() && !same_tile(#[trigger] old[i], new[i])
}

/// Two posts show the same gallery tile: same id, same medium thumbnail.
pub open spec fn same_tile(a: PostRecord, b: PostRecord) -> bool {
    a.id == b.id && crate::model::first_url(a.tier_prefs(ThumbTier::Medium))
        == crate::model::first_url(b.tier_prefs(ThumbTier::Medium))
}

pub fn posts_changed(old: &[PostRecord], new: &[PostRecord]) -> (r: bool)
    ensures
        r == posts_differ(old@, new@),
{
    if old.len() != new.len() {
        return true;
    }
    let mut i: usize = 0;
    while i < old.len()
        invariant
            i <= old@.len(),
            old@.len() == new@.len(),
            forall|k: int| 0 <= k < i ==> same_tile(#[trigger] old@[k], new@[k]),
        decreases old.len() - i,
    {
        if old[i].id != new[i].id {
            assert(!same_tile(old@[i as int], new@[i as int]));
            return true;
        }
        let a = old[i].thumb_url_tier(ThumbTier::Medium);
        let b = new[i].thumb_url_tier(ThumbTier::Medium);
        if !same_url(a, b) {
            assert(!same_tile(old@[i as int], new@[i as int]));
            return true;
        }
        assert(same_tile(old@[i as int], new@[i as int]));
        i = i + 1;
    }
    false
}

/// What an empty gallery is waiting for.
#[derive(Clone, Copy, Debug, PartialEq, Eq, Structural)]
pub enum EmptyState {
    Loading,
    Warming,
    Settled,
}

impl EmptyState {
    pub fn label(self) -> (r: &'static str)
        ensures
            r@ == match self {
                EmptyState::Loading => "LOADING"@,
                EmptyState::Warming => "WARMING"@,
                EmptyState::Settled => "EMPTY"@,
            },
    {
        match self {
            EmptyState::Loading => "LOADING",
            EmptyState::Warming => "WARMING",
            EmptyState::Settled => "EMPTY",
        }
    }

    /// Still waiting for results.
    pub fn raised(self) -> (r: bool)
        ensures
            r == (self != EmptyState::Settled),
    {
        self != EmptyState::Settled
    }

    /// Nothing more is coming.
    pub fn draining(self) -> (r: bool)
        ensures
            r == (self == EmptyState::Settled),
    {
        self == EmptyState::Settled
    }
}

} // verus!
