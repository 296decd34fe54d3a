//! Tag-completion suggestions: the candidates found for a prefix, ranked by how many
//! posts carry them, then by tag, and cut to the number asked for.
use vstd::prelude::*;

use crate::model::Tag;
use crate::text::{
    chars_of, compare_chars, lemma_seq_lt_asymmetric, lemma_seq_lt_transitive, seq_lt, Order,
};

verus! {

/// A completion candidate: the tag, its kind code, and how many posts carry it.
#[derive(Debug)]
pub struct TagSuggestion {
    pub tag: Tag,
    pub kind: u8,
    pub posts: u64,
}

/// A suggestion as plain values: tag text, kind code, post count.
pub open spec fn sugg_view(s: TagSuggestion) -> (Seq<char>, u8, u64) {
    (s.tag@, s.kind, s.posts)
}

pub open spec fn sugg_views(v: Seq<TagSuggestion>) -> Seq<(Seq<char>, u8, u64)> {
    v.map_values(|s: TagSuggestion| sugg_view(s))
}

/// `a` ranks before `b`: more posts, or as many and a tag that sorts first.
pub open spec fn ranks_before(a: (Seq<char>, u8, u64), b: (Seq<char>, u8, u64)) -> bool {
    a.2 > b.2 || (a.2 == b.2 && seq_lt(a.0, b.0))
}

/// No suggestion ranks before one ahead of it.
pub open spec fn ranked(s: Seq<(Seq<char>, u8, u64)>) -> bool {
    forall|i: int, j: int| 0 <= i < j < s.len() ==> !ranks_before(#[trigger] s[j], #[trigger] s[i])
}

/// `r` is the best `limit` of `hits`: as many as there are up to `limit`, in rank order,
/// each taken from `hits`, and every hit left out ranks no better than the last one kept.
pub open spec fn best_of(hits: Seq<(Seq<char>, u8, u64)>, limit: nat, r: Seq<(Seq<char>, u8, u64)>) -> bool {
    &&& r.len() == if limit < hits.len() { limit } else { hits.len() }
    &&& ranked(r)
    &&& r.to_multiset().subset_of(hits.to_multiset())
    &&& forall|x: (Seq<char>, u8, u64)| #[trigger] hits.to_multiset().count(x) > r.to_multiset().count(x) ==>
        r.len() == limit && (limit > 0 ==> !ranks_before(x, r.last()))
}

proof fn lemma_ranks_before_order(a: (Seq<char>, u8, u64), b: (Seq<char>, u8, u64), c: (Seq<char>, u8, u64))
    ensures
        ranks_before(a, b) ==> !ranks_before(b, a),
        ranks_before(a, b) && ranks_before(b, c) ==> ranks_before(a, c),
{
    if ranks_before(a, b) && a.2 == b.2 {
        lemma_seq_lt_asymmetric(a.0, b.0);
    }
    if ranks_before(a, b) && ranks_before(b, c) && a.2 == b.2 && b.2 == c.2 {
        lemma_seq_lt_transitive(a.0, b.0, c.0);
    }
}

fn before(a: &TagSuggestion, b: &TagSuggestion) -> (r: bool)
    ensures
        r == ranks_before(sugg_view(*a), sugg_view(*b)),
{
    if a.posts != b.posts {
        return a.posts > b.posts;
    }
    let x = chars_of(a.tag.as_str());
    let y = chars_of(b.tag.as_str());
    match compare_chars(&x, &y) {
        Order::Less => true,
        _ => false,
    }
}

/// Inserting `x` in front of the first element it ranks before keeps a ranked sequence
/// ranked.
proof fn lemma_insert_ranked(s: Seq<(Seq<char>, u8, u64)>, x: (Seq<char>, u8, u64), p: int)
    requires
        ranked(s),
        0 <= p <= s.len(),
        forall|k: int| 0 <= k < p ==> !ranks_before(x, #[trigger] s[k]),
        p < s.len() ==> ranks_before(x, s[p]),
    ensures
        ranked(s.insert(p, x)),
{
    let t = s.insert(p, x);
    assert forall|i: int, j: int| 0 <= i < j < t.len() implies !ranks_before(#[trigger] t[j], #[trigger] t[i]) by {
        if j < p {
            assert(t[i] == s[i] && t[j] == s[j]);
        } else if j == p {
            assert(t[i] == s[i] && t[j] == x);
        } else if i == p {
            assert(t[i] == x && t[j] == s[j - 1]);
            lemma_ranks_before_order(s[j - 1], x, s[p]);
            if j - 1 > p {
                assert(!ranks_before(s[j - 1], s[p]));
            } else {
                lemma_ranks_before_order(x, s[p], x);
            }
        } else if i < p {
            assert(t[i] == s[i] && t[j] == s[j - 1]);
        } else {
            assert(t[i] == s[i - 1] && t[j] == s[j - 1]);
        }
    }
}

/// The `limit` best suggestions of `hits`: by post count, highest first, then by tag.
pub fn ranked_suggestions(hits: Vec<TagSuggestion>, limit: usize) -> (r: Vec<TagSuggestion>)
    ensures
        best_of(sugg_views(hits@), limit as nat, sugg_views(r@)),
{
    let ghost hv = sugg_views(hits@);
    let mut rest = hits;
    let mut sorted: Vec<TagSuggestion> = Vec::new();
    let n = rest.len();
    let mut i: usize = 0;
    assert(hv.skip(0) =~= hv);
    assert(hv.take(0) =~= Seq::<(Seq<char>, u8, u64)>::empty());
    assert(sugg_views(sorted@) =~= hv.take(0));
    while rest.len() > 0
        invariant
            i <= n == hv.len(),
            n == i + rest@.len(),
            sugg_views(rest@) == hv.skip(i as int),
            sugg_views(sorted@).to_multiset() == hv.take(i as int).to_multiset(),
            sugg_views(sorted@).len() == i,
            ranked(sugg_views(sorted@)),
        decreases rest.len(),
    {
        let ghost old_rest = rest@;
        let x = rest.remove(0);
        assert(sugg_views(rest@) =~= sugg_views(old_rest).drop_first());
        assert(sugg_views(old_rest)[0] == hv[i as int]);
        assert(sugg_views(rest@) =~= hv.skip(i + 1));
        let ghost before_sorted = sugg_views(sorted@);
        let mut p: usize = 0;
        while p < sorted.len() && !before(&x, &sorted[p])
            invariant
                p <= sorted@.len(),
                sugg_views(sorted@) == before_sorted,
                forall|k: int| 0 <= k < p ==> !ranks_before(sugg_view(x), #[trigger] before_sorted[k]),
            decreases sorted.len() - p,
        {
            p = p + 1;
        }
        sorted.insert(p, x);
        proof {
            assert(sugg_views(sorted@) =~= before_sorted.insert(p as int, sugg_view(x)));
            lemma_insert_ranked(before_sorted, sugg_view(x), p as int);
            vstd::seq_lib::to_multiset_insert(before_sorted, p as int, sugg_view(x));
            assert(hv.take(i + 1) =~= hv.take(i as int).push(hv[i as int]));
            vstd::seq_lib::to_multiset_build(hv.take(i as int), hv[i as int]);
        }
        i = i + 1;
    }
    assert(hv.take(i as int) =~= hv);
    let ghost all = sugg_views(sorted@);
    sorted.truncate(limit);
    proof {
        let r = sugg_views(sorted@);
        let m = r.len() as int;
        assert(r =~= all.subrange(0, m));
        let tail = all.subrange(m, all.len() as int);
        assert(all =~= r + tail);
        vstd::seq_lib::lemma_multiset_commutative(r, tail);
        assert(r.to_multiset().subset_of(hv.to_multiset())) by {
            broadcast use vstd::multiset::group_multiset_axioms;
        }
        assert forall|x: (Seq<char>, u8, u64)| #[trigger] hv.to_multiset().count(x) > r.to_multiset().count(x) implies
            r.len() == limit && (limit > 0 ==> !ranks_before(x, r.last())) by {
            broadcast use vstd::multiset::group_multiset_axioms;
            assert(tail.to_multiset().count(x) > 0);
            vstd::seq_lib::to_multiset_contains(tail, x);
            let k = choose|k: int| 0 <= k < tail.len() && tail[k] == x;
            assert(tail[k] == all[m + k]);
            assert(m == limit);
            if limit > 0 {
                assert(r.last() == all[m - 1]);
            }
        }
    }
    sorted
}

} // verus!
