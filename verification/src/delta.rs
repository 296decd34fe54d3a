//! What replacing a post's record changes in the postings: the tags it leaves, the tags
//! it joins, and the rating it moves between.
use vstd::prelude::*;

use crate::index::indexed_rating;
use crate::model::{rating_class_of, same_chars, PostId, PostRecord, RatingClass};
use crate::text::{chars_of, string_from};

verus! {

/// A post is indexed unless it is tagged `animated`.
pub open spec fn indexable_post(p: PostRecord) -> bool {
    forall|i: int| 0 <= i < p.tags@.len() ==> p.tags@[i]@ != "animated"@
}

/// The tags a record is indexed under.
pub open spec fn indexed_tag_set(post: Option<PostRecord>) -> Set<Seq<char>> {
    match post {
        Some(p) => if indexable_post(p) {
            Set::new(|t: Seq<char>| exists|i: int| 0 <= i < p.tags@.len() && #[trigger] p.tags@[i]@ == t)
        } else {
            Set::empty()
        },
        None => Set::empty(),
    }
}

/// The rating a record is indexed under.
pub open spec fn indexed_rating_of(post: Option<PostRecord>) -> Option<RatingClass> {
    match post {
        Some(p) => if indexable_post(p) { rating_class_of(&p.rating) } else { None },
        None => None,
    }
}

/// What replacing a record changes in the postings of post `id`.
#[derive(Debug)]
pub struct RecordDelta {
    pub id: PostId,
    /// Tags whose postings lose the post.
    pub removed: Vec<String>,
    /// Tags whose postings gain the post.
    pub added: Vec<String>,
    /// The rating whose posting loses the post, when the rating changes.
    pub rating_out: Option<RatingClass>,
    /// The rating whose posting gains the post, when the rating changes.
    pub rating_in: Option<RatingClass>,
}

pub open spec fn texts(v: Seq<String>) -> Seq<Seq<char>> {
    v.map_values(|s: String| s@)
}

pub open spec fn opt(p: Option<&PostRecord>) -> Option<PostRecord> {
    match p {
        Some(r) => Some(*r),
        None => None,
    }
}

/// `d` is the change from record `old` to record `new`.
pub open spec fn delta_of(old: Option<PostRecord>, new: Option<PostRecord>, d: &RecordDelta) -> bool {
    let before = indexed_tag_set(old);
    let after = indexed_tag_set(new);
    &&& d.id == match old { Some(p) => p.id, None => new.unwrap().id }
    &&& texts(d.removed@).to_set() == before.difference(after)
    &&& texts(d.added@).to_set() == after.difference(before)
    &&& texts(d.removed@).no_duplicates()
    &&& texts(d.added@).no_duplicates()
    &&& if indexed_rating_of(old) != indexed_rating_of(new) {
        d.rating_out == indexed_rating_of(old) && d.rating_in == indexed_rating_of(new)
    } else {
        d.rating_out is None && d.rating_in is None
    }
}

fn tag_chars(post: Option<&PostRecord>) -> (r: Vec<Vec<char>>)
    ensures
        forall|t: Seq<char>| indexed_tag_set(opt(post)).contains(t) <==> exists|i: int| 0 <= i < r@.len() && #[trigger] r@[i]@ == t,
{
    let mut out: Vec<Vec<char>> = Vec::new();
    match post {
        Some(p) => {
            if !p.indexable() {
                return out;
            }
            let mut i: usize = 0;
            while i < p.tags.len()
                invariant
                    i <= p.tags@.len(),
                    out@.len() == i,
                    forall|k: int| 0 <= k < i ==> #[trigger] out@[k]@ == p.tags@[k]@,
                decreases p.tags.len() - i,
            {
                out.push(chars_of(p.tags[i].as_str()));
                i = i + 1;
            }
            proof {
                let s = indexed_tag_set(opt(post));
                assert forall|t: Seq<char>| s.contains(t) <==> exists|k: int| 0 <= k < out@.len() && #[trigger] out@[k]@ == t by {
                    if s.contains(t) {
                        let k = choose|k: int| 0 <= k < p.tags@.len() && #[trigger] p.tags@[k]@ == t;
                        assert(out@[k]@ == t);
                    }
                    if exists|k: int| 0 <= k < out@.len() && #[trigger] out@[k]@ == t {
                        let k = choose|k: int| 0 <= k < out@.len() && #[trigger] out@[k]@ == t;
                        assert(p.tags@[k]@ == t);
                    }
                }
            }
            out
        },
        None => out,
    }
}

fn holds(xs: &Vec<Vec<char>>, x: &Vec<char>) -> (r: bool)
    ensures
        r == exists|i: int| 0 <= i < xs@.len() && #[trigger] xs@[i]@ == x@,
{
    let mut i: usize = 0;
    while i < xs.len()
        invariant
            i <= xs@.len(),
            forall|k: int| 0 <= k < i ==> #[trigger] xs@[k]@ != x@,
        decreases xs.len() - i,
    {
        if same_chars(xs[i].as_slice(), x.as_slice()) {
            return true;
        }
        i = i + 1;
    }
    false
}

fn holds_text(xs: &Vec<String>, x: &Vec<char>) -> (r: bool)
    ensures
        r == texts(xs@).contains(x@),
{
    let mut i: usize = 0;
    while i < xs.len()
        invariant
            i <= xs@.len(),
            forall|k: int| 0 <= k < i ==> #[trigger] texts(xs@)[k] != x@,
        decreases xs.len() - i,
    {
        let c = chars_of(xs[i].as_str());
        if same_chars(c.as_slice(), x.as_slice()) {
            assert(texts(xs@)[i as int] == x@);
            return true;
        }
        i = i + 1;
    }
    false
}

/// The texts of `xs` that `ys` lacks, each once, in the order of `xs`.
fn lacking(xs: &Vec<Vec<char>>, ys: &Vec<Vec<char>>) -> (r: Vec<String>)
    ensures
        texts(r@).no_duplicates(),
        forall|t: Seq<char>| #[trigger] texts(r@).contains(t) <==> (
            (exists|i: int| 0 <= i < xs@.len() && #[trigger] xs@[i]@ == t)
            && !(exists|j: int| 0 <= j < ys@.len() && #[trigger] ys@[j]@ == t)),
{
    let mut out: Vec<String> = Vec::new();
    let mut i: usize = 0;
    while i < xs.len()
        invariant
            i <= xs@.len(),
            texts(out@).no_duplicates(),
            forall|t: Seq<char>| #[trigger] texts(out@).contains(t) <==> (
                (exists|k: int| 0 <= k < i && #[trigger] xs@[k]@ == t)
                && !(exists|j: int| 0 <= j < ys@.len() && #[trigger] ys@[j]@ == t)),
        decreases xs.len() - i,
    {
        let x = &xs[i];
        if !holds(ys, x) && !holds_text(&out, x) {
            let ghost before = texts(out@);
            out.push(string_from(x.as_slice()));
            assert(texts(out@) =~= before.push(x@));
            assert forall|t: Seq<char>| #[trigger] texts(out@).contains(t) <==> (
                (exists|k: int| 0 <= k < i + 1 && #[trigger] xs@[k]@ == t)
                && !(exists|j: int| 0 <= j < ys@.len() && #[trigger] ys@[j]@ == t)) by {
                if texts(out@).contains(t) {
                    let k = choose|k: int| 0 <= k < texts(out@).len() && texts(out@)[k] == t;
                    if k < before.len() {
                        assert(before.contains(t));
                    }
                }
                if (exists|k: int| 0 <= k < i + 1 && #[trigger] xs@[k]@ == t) && t != x@
                    && !(exists|j: int| 0 <= j < ys@.len() && #[trigger] ys@[j]@ == t) {
                    let k = choose|k: int| 0 <= k < i + 1 && #[trigger] xs@[k]@ == t;
                    assert(k < i);
                    assert(before.contains(t));
                    let m = choose|m: int| 0 <= m < before.len() && before[m] == t;
                    assert(texts(out@)[m] == t);
                }
                if t == x@ {
                    assert(texts(out@)[before.len() as int] == t);
                }
            }
        } else {
            proof {
                assert forall|t: Seq<char>| #[trigger] texts(out@).contains(t) <==> (
                    (exists|k: int| 0 <= k < i + 1 && #[trigger] xs@[k]@ == t)
                    && !(exists|j: int| 0 <= j < ys@.len() && #[trigger] ys@[j]@ == t)) by {
                    if (exists|k: int| 0 <= k < i + 1 && #[trigger] xs@[k]@ == t) && t != x@ {
                        let k = choose|k: int| 0 <= k < i + 1 && #[trigger] xs@[k]@ == t;
                        assert(k < i);
                    }
                }
            }
        }
        i = i + 1;
    }
    out
}

/// The change in the postings when record `old` of a post is replaced by `new`; `None`
/// stands for no record. Nothing changes without either record.
pub fn record_delta(old: Option<&PostRecord>, new: Option<&PostRecord>) -> (r: Option<RecordDelta>)
    ensures
        match (old, new) {
            (None, None) => r is None,
            _ => r matches Some(d) && delta_of(opt(old), opt(new), &d),
        },
{
    let id = match (old, new) {
        (Some(p), _) => p.id,
        (None, Some(p)) => p.id,
        (None, None) => return None,
    };
    let before = tag_chars(old);
    let after = tag_chars(new);
    let removed = lacking(&before, &after);
    let added = lacking(&after, &before);
    let out_rating = indexed_rating(old);
    let in_rating = indexed_rating(new);
    let (rating_out, rating_in) = if out_rating != in_rating {
        (out_rating, in_rating)
    } else {
        (None, None)
    };
    let d = RecordDelta { id, removed, added, rating_out, rating_in };
    proof {
        let b = indexed_tag_set(opt(old));
        let a = indexed_tag_set(opt(new));
        assert(texts(d.removed@).to_set() =~= b.difference(a));
        assert(texts(d.added@).to_set() =~= a.difference(b));
    }
    Some(d)
}

/// Replaying a delta on the tags a record was indexed under gives the tags the new
/// record is indexed under.
pub proof fn lemma_delta_replays(old: Option<PostRecord>, new: Option<PostRecord>, d: &RecordDelta)
    requires
        delta_of(old, new, d),
    ensures
        indexed_tag_set(old).difference(texts(d.removed@).to_set()).union(texts(d.added@).to_set())
            == indexed_tag_set(new),
        texts(d.removed@).to_set().disjoint(texts(d.added@).to_set()),
{
    let b = indexed_tag_set(old);
    let a = indexed_tag_set(new);
    assert(b.difference(b.difference(a)).union(a.difference(b)) =~= a);
}

} // verus!
