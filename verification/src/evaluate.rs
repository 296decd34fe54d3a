//! The Boolean algebra of a query over posting sets: which posts a query selects, with
//! negations kept as complements until a finite set is needed.
use vstd::prelude::*;

use roaring::RoaringBitmap;

use crate::model::{
    child_views, lemma_child_views, required, required_all, required_any, views, AtomV, BoolOp, ExprV,
    QueryAtom, QueryExpr,
};

verus! {

#[verifier::external_type_specification]
#[verifier::external_body]
pub struct ExRoaringBitmap(RoaringBitmap);

/// The post ids a bitmap holds.
pub uninterp spec fn bitmap_set(b: RoaringBitmap) -> Set<u32>;

/// `RoaringBitmap::new`: the empty set.
#[verifier::external_body]
pub(crate) fn bitmap_new() -> (r: RoaringBitmap)
    ensures
        bitmap_set(r) == Set::<u32>::empty(),
{
    RoaringBitmap::new()
}

/// `Clone for RoaringBitmap`: a copy of the same set.
#[verifier::external_body]
pub(crate) fn bitmap_clone(b: &RoaringBitmap) -> (r: RoaringBitmap)
    ensures
        bitmap_set(r) == bitmap_set(*b),
{
    b.clone()
}

/// `RoaringBitmap::contains`.
#[verifier::external_body]
pub(crate) fn bitmap_contains(b: &RoaringBitmap, id: u32) -> (r: bool)
    ensures
        r == bitmap_set(*b).contains(id),
{
    b.contains(id)
}

/// `RoaringBitmap::len`: the number of ids held.
#[verifier::external_body]
pub(crate) fn bitmap_len(b: &RoaringBitmap) -> (r: u64)
    ensures
        r == bitmap_set(*b).len(),
{
    b.len()
}

/// `BitAndAssign<&RoaringBitmap>`: intersection in place.
#[verifier::external_body]
pub(crate) fn bitmap_and_assign(a: &mut RoaringBitmap, b: &RoaringBitmap)
    ensures
        bitmap_set(*final(a)) == bitmap_set(*old(a)).intersect(bitmap_set(*b)),
{
    *a &= b;
}

/// `BitOrAssign<&RoaringBitmap>`: union in place.
#[verifier::external_body]
pub(crate) fn bitmap_or_assign(a: &mut RoaringBitmap, b: &RoaringBitmap)
    ensures
        bitmap_set(*final(a)) == bitmap_set(*old(a)).union(bitmap_set(*b)),
{
    *a |= b;
}

/// `SubAssign<&RoaringBitmap>`: difference in place.
#[verifier::external_body]
pub(crate) fn bitmap_sub_assign(a: &mut RoaringBitmap, b: &RoaringBitmap)
    ensures
        bitmap_set(*final(a)) == bitmap_set(*old(a)).difference(bitmap_set(*b)),
{
    *a -= b;
}

/// `BitXorAssign<&RoaringBitmap>`: symmetric difference in place.
#[verifier::external_body]
pub(crate) fn bitmap_xor_assign(a: &mut RoaringBitmap, b: &RoaringBitmap)
    ensures
        bitmap_set(*final(a)) == bitmap_set(*old(a)).difference(bitmap_set(*b)).union(
            bitmap_set(*b).difference(bitmap_set(*old(a))),
        ),
{
    *a ^= b;
}

/// `BitAnd<&RoaringBitmap> for &RoaringBitmap`: the intersection as a new bitmap.
#[verifier::external_body]
pub(crate) fn bitmap_and(a: &RoaringBitmap, b: &RoaringBitmap) -> (r: RoaringBitmap)
    ensures
        bitmap_set(r) == bitmap_set(*a).intersect(bitmap_set(*b)),
{
    a & b
}

/// A set of posts: a finite bitmap, or everything except a bitmap.
#[derive(Debug)]
pub enum Candidate {
    Finite(RoaringBitmap),
    Cofinite(RoaringBitmap),
}

pub open spec fn holds(c: Candidate, id: u32) -> bool {
    match c {
        Candidate::Finite(b) => bitmap_set(b).contains(id),
        Candidate::Cofinite(b) => !bitmap_set(b).contains(id),
    }
}

impl Candidate {
    pub fn contains(&self, id: u32) -> (r: bool)
        ensures
            r == holds(*self, id),
    {
        match self {
            Candidate::Finite(b) => bitmap_contains(b, id),
            Candidate::Cofinite(b) => !bitmap_contains(b, id),
        }
    }

    /// The complement: a finite set becomes everything but it, and back.
    pub fn complement(self) -> (r: Candidate)
        ensures
            forall|id: u32| holds(r, id) == !holds(self, id),
    {
        match self {
            Candidate::Finite(b) => Candidate::Cofinite(b),
            Candidate::Cofinite(b) => Candidate::Finite(b),
        }
    }

    /// How many of `universe` posts the set holds, counting a complement against it.
    pub fn len(&self, universe: u64) -> (r: u64)
        ensures
            r == match self {
                Candidate::Finite(b) => bitmap_set(*b).len() as u64,
                Candidate::Cofinite(b) => if universe >= bitmap_set(*b).len() {
                    (universe - bitmap_set(*b).len()) as u64
                } else {
                    0u64
                },
            },
    {
        match self {
            Candidate::Finite(b) => bitmap_len(b),
            Candidate::Cofinite(b) => universe.saturating_sub(bitmap_len(b)),
        }
    }

    /// The set as a bitmap; a complement is taken within `universe`.
    pub fn materialize(self, universe: &RoaringBitmap) -> (r: RoaringBitmap)
        ensures
            forall|id: u32| #[trigger] bitmap_set(r).contains(id) == match self {
                Candidate::Finite(b) => bitmap_set(b).contains(id),
                Candidate::Cofinite(b) => bitmap_set(*universe).contains(id) && !bitmap_set(b).contains(id),
            },
    {
        match self {
            Candidate::Finite(b) => b,
            Candidate::Cofinite(excluded) => {
                let mut out = bitmap_clone(universe);
                bitmap_sub_assign(&mut out, &excluded);
                out
            },
        }
    }
}

/// Every candidate holds `id`.
pub open spec fn all_hold(cs: Seq<Candidate>, id: u32) -> bool {
    forall|k: int| 0 <= k < cs.len() ==> holds(#[trigger] cs[k], id)
}

/// Some candidate holds `id`.
pub open spec fn any_holds(cs: Seq<Candidate>, id: u32) -> bool {
    exists|k: int| 0 <= k < cs.len() && holds(#[trigger] cs[k], id)
}

/// The intersection of the candidates; no finite one leaves a complement of the union of
/// the excluded sets.
pub fn conjunction(children: Vec<Candidate>) -> (r: Candidate)
    ensures
        forall|id: u32| #[trigger] holds(r, id) == all_hold(children@, id),
{
    let ghost all = children@;
    let mut rest = children;
    let mut finite: Option<RoaringBitmap> = None;
    let mut excluded = bitmap_new();
    while rest.len() > 0
        invariant
            all.len() >= rest@.len(),
            all.subrange(0, rest@.len() as int) == rest@,
            forall|id: u32| #[trigger] bitmap_set(excluded).contains(id) ==
                exists|k: int| rest@.len() <= k < all.len() && all[k] is Cofinite && !holds(#[trigger] all[k], id),
            match finite {
                Some(f) => forall|id: u32| #[trigger] bitmap_set(f).contains(id) ==
                    forall|k: int| rest@.len() <= k < all.len() && all[k] is Finite ==> holds(#[trigger] all[k], id),
                None => forall|k: int| rest@.len() <= k < all.len() ==> #[trigger] all[k] is Cofinite,
            },
        decreases rest.len(),
    {
        let ghost n = rest@.len();
        let child = rest.pop().unwrap();
        assert(child == all[n - 1]);
        assert(all.subrange(0, rest@.len() as int) =~= rest@);
        match child {
            Candidate::Finite(b) => {
                match finite {
                    Some(mut f) => {
                        bitmap_and_assign(&mut f, &b);
                        finite = Some(f);
                    },
                    None => {
                        finite = Some(b);
                    },
                }
            },
            Candidate::Cofinite(b) => {
                bitmap_or_assign(&mut excluded, &b);
            },
        }
    }
    match finite {
        Some(mut f) => {
            bitmap_sub_assign(&mut f, &excluded);
            Candidate::Finite(f)
        },
        None => Candidate::Cofinite(excluded),
    }
}

/// The union of the candidates; any complement among them makes a complement of what
/// none of the complements holds and no finite set adds back.
pub fn disjunction(children: Vec<Candidate>) -> (r: Candidate)
    ensures
        forall|id: u32| #[trigger] holds(r, id) == any_holds(children@, id),
{
    let ghost all = children@;
    let mut rest = children;
    let mut finite = bitmap_new();
    let mut cofinite: Option<RoaringBitmap> = None;
    while rest.len() > 0
        invariant
            all.len() >= rest@.len(),
            all.subrange(0, rest@.len() as int) == rest@,
            forall|id: u32| #[trigger] bitmap_set(finite).contains(id) ==
                exists|k: int| rest@.len() <= k < all.len() && all[k] is Finite && holds(#[trigger] all[k], id),
            match cofinite {
                Some(x) => forall|id: u32| #[trigger] bitmap_set(x).contains(id) ==
                    forall|k: int| rest@.len() <= k < all.len() && all[k] is Cofinite ==> !holds(#[trigger] all[k], id),
                None => forall|k: int| rest@.len() <= k < all.len() ==> #[trigger] all[k] is Finite,
            },
        decreases rest.len(),
    {
        let ghost n = rest@.len();
        let child = rest.pop().unwrap();
        assert(child == all[n - 1]);
        assert(all.subrange(0, rest@.len() as int) =~= rest@);
        match child {
            Candidate::Finite(b) => {
                bitmap_or_assign(&mut finite, &b);
            },
            Candidate::Cofinite(b) => {
                match cofinite {
                    Some(mut x) => {
                        bitmap_and_assign(&mut x, &b);
                        cofinite = Some(x);
                    },
                    None => {
                        cofinite = Some(b);
                    },
                }
            },
        }
    }
    match cofinite {
        Some(mut x) => {
            bitmap_sub_assign(&mut x, &finite);
            Candidate::Cofinite(x)
        },
        None => Candidate::Finite(finite),
    }
}

/// How many of the sets hold `id`.
pub open spec fn count_in(sets: Seq<Set<u32>>, id: u32) -> nat
    decreases sets.len(),
{
    if sets.len() == 0 {
        0
    } else {
        count_in(sets.drop_last(), id) + if sets.last().contains(id) { 1nat } else { 0nat }
    }
}

pub open spec fn bitmap_sets(bs: Seq<RoaringBitmap>) -> Seq<Set<u32>> {
    bs.map_values(|b: RoaringBitmap| bitmap_set(b))
}

/// The ids held by exactly one of the bitmaps.
pub fn exactly_one(children: Vec<RoaringBitmap>) -> (r: RoaringBitmap)
    ensures
        forall|id: u32| #[trigger] bitmap_set(r).contains(id) == (count_in(bitmap_sets(children@), id) == 1),
{
    let ghost sets = bitmap_sets(children@);
    let mut exactly = bitmap_new();
    let mut repeated = bitmap_new();
    let mut i: usize = 0;
    while i < children.len()
        invariant
            i <= children@.len(),
            sets == bitmap_sets(children@),
            forall|id: u32| #[trigger] bitmap_set(exactly).contains(id) == (count_in(sets.take(i as int), id) == 1),
            forall|id: u32| #[trigger] bitmap_set(repeated).contains(id) == (count_in(sets.take(i as int), id) >= 2),
        decreases children.len() - i,
    {
        let child = &children[i];
        assert(sets.take(i + 1).drop_last() =~= sets.take(i as int));
        assert(sets.take(i + 1).last() == bitmap_set(*child));
        let overlap = bitmap_and(&exactly, child);
        bitmap_or_assign(&mut repeated, &overlap);
        bitmap_xor_assign(&mut exactly, child);
        bitmap_sub_assign(&mut exactly, &repeated);
        i = i + 1;
    }
    assert(sets.take(i as int) =~= sets);
    exactly
}

/// How many candidates hold `id`.
pub open spec fn count_holds(cs: Seq<Candidate>, id: u32) -> nat
    decreases cs.len(),
{
    if cs.len() == 0 {
        0
    } else {
        count_holds(cs.drop_last(), id) + if holds(cs.last(), id) { 1nat } else { 0nat }
    }
}

/// Counting over bitmaps that agree with the candidates on `id` gives the same count.
proof fn lemma_count_agrees(cs: Seq<Candidate>, bs: Seq<RoaringBitmap>, id: u32)
    requires
        cs.len() == bs.len(),
        forall|k: int| 0 <= k < cs.len() ==> (#[trigger] bitmap_set(bs[k]).contains(id) == holds(cs[k], id)),
    ensures
        count_in(bitmap_sets(bs), id) == count_holds(cs, id),
    decreases cs.len(),
{
    if cs.len() > 0 {
        let n = cs.len() - 1;
        assert(bitmap_sets(bs).drop_last() =~= bitmap_sets(bs.drop_last()));
        assert forall|k: int| 0 <= k < cs.drop_last().len() implies
            (#[trigger] bitmap_set(bs.drop_last()[k]).contains(id) == holds(cs.drop_last()[k], id)) by {
            assert(bs.drop_last()[k] == bs[k]);
            assert(cs.drop_last()[k] == cs[k]);
            assert(bitmap_set(bs[k]).contains(id) == holds(cs[k], id));
        }
        lemma_count_agrees(cs.drop_last(), bs.drop_last(), id);
        assert(bitmap_set(bs[n]).contains(id) == holds(cs[n], id));
    }
}

/// The posts exactly one candidate holds, as a finite set. When some candidate is a
/// complement, every candidate is first taken within `universe`.
pub fn exactly_one_of(children: Vec<Candidate>, universe: &RoaringBitmap) -> (r: Candidate)
    ensures
        r is Finite,
        forall|id: u32| bitmap_set(*universe).contains(id) ==> (#[trigger] holds(r, id) == (count_holds(children@, id) == 1)),
        (forall|k: int| 0 <= k < children@.len() ==> #[trigger] children@[k] is Finite)
            ==> forall|id: u32| #[trigger] holds(r, id) == (count_holds(children@, id) == 1),
{
    let ghost all = children@;
    let mut all_finite = true;
    let mut j: usize = 0;
    while j < children.len()
        invariant
            j <= children@.len(),
            all_finite == forall|k: int| 0 <= k < j ==> #[trigger] children@[k] is Finite,
        decreases children.len() - j,
    {
        if let Candidate::Cofinite(_) = &children[j] {
            all_finite = false;
        }
        j = j + 1;
    }
    let mut rest = children;
    let mut bitmaps: Vec<RoaringBitmap> = Vec::new();
    let ghost mut taken: Seq<Candidate> = Seq::empty();
    while rest.len() > 0
        invariant
            all.len() == taken.len() + rest@.len(),
            taken + rest@ == all,
            bitmaps@.len() == taken.len(),
            all_finite == forall|k: int| 0 <= k < all.len() ==> #[trigger] all[k] is Finite,
            forall|k: int, id: u32| 0 <= k < taken.len() && (all_finite || bitmap_set(*universe).contains(id)) ==>
                (#[trigger] bitmap_set(bitmaps@[k]).contains(id) == holds(taken[k], id)),
        decreases rest.len(),
    {
        let child = rest.remove(0);
        let ghost before = taken;
        proof {
            assert(all[before.len() as int] == child);
            taken = taken.push(child);
            assert(taken + rest@ =~= all);
        }
        let bitmap = if all_finite {
            match child {
                Candidate::Finite(b) => b,
                Candidate::Cofinite(b) => {
                    assert(all[before.len() as int] is Finite);
                    b
                },
            }
        } else {
            child.materialize(universe)
        };
        let ghost prior = bitmaps@;
        bitmaps.push(bitmap);
        proof {
            assert forall|k: int, id: u32| 0 <= k < taken.len() && (all_finite || bitmap_set(*universe).contains(id)) implies
                (#[trigger] bitmap_set(bitmaps@[k]).contains(id) == holds(taken[k], id)) by {
                if k < before.len() {
                    assert(bitmaps@[k] == prior[k]);
                    assert(taken[k] == before[k]);
                }
            }
        }
    }
    assert(taken =~= all);
    let result = exactly_one(bitmaps);
    proof {
        assert forall|id: u32| (all_finite || bitmap_set(*universe).contains(id)) implies
            #[trigger] holds(Candidate::Finite(result), id) == (count_holds(all, id) == 1) by {
            lemma_count_agrees(all, bitmaps@, id);
        }
    }
    Candidate::Finite(result)
}

/// The posts an atom selects, as read from the index.
#[derive(Debug)]
pub struct Posting {
    pub atom: QueryAtom,
    pub ids: RoaringBitmap,
}

/// The posting of an atom: the first one given for it, or nothing.
pub open spec fn posting_of(ps: Seq<Posting>, a: AtomV) -> Set<u32>
    decreases ps.len(),
{
    if ps.len() == 0 {
        Set::empty()
    } else if ps[0].atom@ == a {
        bitmap_set(ps[0].ids)
    } else {
        posting_of(ps.drop_first(), a)
    }
}

/// Whether post `id` satisfies a query: atoms by their postings, `~` as negation, `AND`
/// all, `OR` any, and `XOR` exactly one of its children.
pub open spec fn sat(e: ExprV, ps: Seq<Posting>, id: u32) -> bool
    decreases e,
{
    match e {
        ExprV::Atom(a) => posting_of(ps, a).contains(id),
        ExprV::Not(c) => !sat(*c, ps, id),
        ExprV::Group(op, cs) => match op {
            BoolOp::And => all_sat(cs, ps, id),
            BoolOp::Or => any_sat(cs, ps, id),
            BoolOp::Xor => count_sat(cs, ps, id) == 1,
        },
    }
}

/// Post `id` satisfies every one of the queries.
pub open spec fn all_sat(cs: Seq<ExprV>, ps: Seq<Posting>, id: u32) -> bool
    decreases cs,
{
    if cs.len() == 0 { true } else { all_sat(cs.drop_last(), ps, id) && sat(cs.last(), ps, id) }
}

/// Post `id` satisfies some of the queries.
pub open spec fn any_sat(cs: Seq<ExprV>, ps: Seq<Posting>, id: u32) -> bool
    decreases cs,
{
    if cs.len() == 0 { false } else { any_sat(cs.drop_last(), ps, id) || sat(cs.last(), ps, id) }
}

pub proof fn lemma_all_sat(cs: Seq<ExprV>, ps: Seq<Posting>, id: u32)
    ensures
        all_sat(cs, ps, id) == forall|k: int| 0 <= k < cs.len() ==> #[trigger] sat(cs[k], ps, id),
    decreases cs.len(),
{
    if cs.len() > 0 {
        let front = cs.drop_last();
        lemma_all_sat(front, ps, id);
        if all_sat(cs, ps, id) {
            assert forall|k: int| 0 <= k < cs.len() implies #[trigger] sat(cs[k], ps, id) by {
                if k < cs.len() - 1 {
                    assert(front[k] == cs[k]);
                    assert(sat(front[k], ps, id));
                }
            }
        } else if !sat(cs.last(), ps, id) {
            assert(!sat(cs[cs.len() - 1], ps, id));
        } else {
            let k = choose|k: int| 0 <= k < front.len() && !#[trigger] sat(front[k], ps, id);
            assert(front[k] == cs[k]);
            assert(!sat(cs[k], ps, id));
        }
    }
}

pub proof fn lemma_any_sat(cs: Seq<ExprV>, ps: Seq<Posting>, id: u32)
    ensures
        any_sat(cs, ps, id) == exists|k: int| 0 <= k < cs.len() && #[trigger] sat(cs[k], ps, id),
    decreases cs.len(),
{
    if cs.len() > 0 {
        lemma_any_sat(cs.drop_last(), ps, id);
        if sat(cs.last(), ps, id) {
            assert(sat(cs[cs.len() - 1], ps, id));
        }
        if any_sat(cs.drop_last(), ps, id) {
            let k = choose|k: int| 0 <= k < cs.drop_last().len() && #[trigger] sat(cs.drop_last()[k], ps, id);
            assert(cs.drop_last()[k] == cs[k]);
        }
        if exists|k: int| 0 <= k < cs.len() && #[trigger] sat(cs[k], ps, id) {
            let k = choose|k: int| 0 <= k < cs.len() && #[trigger] sat(cs[k], ps, id);
            if k < cs.len() - 1 {
                assert(cs.drop_last()[k] == cs[k]);
            }
        }
    }
}

/// How many of the queries post `id` satisfies.
pub open spec fn count_sat(cs: Seq<ExprV>, ps: Seq<Posting>, id: u32) -> nat
    decreases cs,
{
    if cs.len() == 0 {
        0
    } else {
        count_sat(cs.drop_last(), ps, id) + if sat(cs.last(), ps, id) { 1nat } else { 0nat }
    }
}

proof fn lemma_count_sat_some(cs: Seq<ExprV>, ps: Seq<Posting>, id: u32)
    requires
        count_sat(cs, ps, id) > 0,
    ensures
        exists|k: int| 0 <= k < cs.len() && #[trigger] sat(cs[k], ps, id),
    decreases cs.len(),
{
    if sat(cs.last(), ps, id) {
        assert(sat(cs[cs.len() - 1], ps, id));
    } else {
        lemma_count_sat_some(cs.drop_last(), ps, id);
        let k = choose|k: int| 0 <= k < cs.drop_last().len() && #[trigger] sat(cs.drop_last()[k], ps, id);
        assert(cs.drop_last()[k] == cs[k]);
    }
}

proof fn lemma_required_all_member(cs: Seq<ExprV>, a: AtomV)
    requires
        required_all(cs).contains(a),
    ensures
        exists|k: int| 0 <= k < cs.len() && #[trigger] required(cs[k], false).contains(a),
    decreases cs.len(),
{
    if !required(cs[0], false).contains(a) {
        lemma_required_all_member(cs.drop_first(), a);
        let k = choose|k: int| 0 <= k < cs.drop_first().len() && #[trigger] required(cs.drop_first()[k], false).contains(a);
        assert(cs.drop_first()[k] == cs[k + 1]);
    }
}

proof fn lemma_required_any_member(cs: Seq<ExprV>, a: AtomV)
    requires
        required_any(cs).contains(a),
    ensures
        forall|k: int| 0 <= k < cs.len() ==> #[trigger] required(cs[k], false).contains(a),
    decreases cs.len(),
{
    if cs.len() > 1 {
        lemma_required_any_member(cs.drop_first(), a);
        assert forall|k: int| 0 <= k < cs.len() implies #[trigger] required(cs[k], false).contains(a) by {
            if k > 0 {
                assert(cs.drop_first()[k - 1] == cs[k]);
            }
        }
    }
}

/// `required` under a parity: a post on which `e` holds (fails, when `negated`) carries
/// every atom of `required(e, negated)`.
proof fn lemma_required_sound_under(e: ExprV, ps: Seq<Posting>, id: u32, negated: bool, a: AtomV)
    requires
        sat(e, ps, id) != negated,
        required(e, negated).contains(a),
    ensures
        posting_of(ps, a).contains(id),
    decreases e,
{
    match e {
        ExprV::Atom(b) => {},
        ExprV::Not(c) => {
            lemma_required_sound_under(*c, ps, id, !negated, a);
        },
        ExprV::Group(op, cs) => {
            match op {
                BoolOp::And => {
                    lemma_required_all_member(cs, a);
                    let k = choose|k: int| 0 <= k < cs.len() && #[trigger] required(cs[k], false).contains(a);
                    lemma_all_sat(cs, ps, id);
                    assert(sat(cs[k], ps, id));
                    lemma_required_sound_under(cs[k], ps, id, false, a);
                },
                BoolOp::Or => {
                    lemma_required_any_member(cs, a);
                    lemma_any_sat(cs, ps, id);
                    let k = choose|k: int| 0 <= k < cs.len() && #[trigger] sat(cs[k], ps, id);
                    assert(required(cs[k], false).contains(a));
                    lemma_required_sound_under(cs[k], ps, id, false, a);
                },
                BoolOp::Xor => {
                    lemma_required_any_member(cs, a);
                    lemma_count_sat_some(cs, ps, id);
                    let k = choose|k: int| 0 <= k < cs.len() && #[trigger] sat(cs[k], ps, id);
                    assert(required(cs[k], false).contains(a));
                    lemma_required_sound_under(cs[k], ps, id, false, a);
                },
            }
        },
    }
}

/// The atoms a query requires, those its remote seed narrows the crawl by, are carried by
/// every post the query matches: whatever the postings, a post that satisfies `e` lies in
/// the posting of each atom of `required(e, false)`. So an `OR` or exactly-one group
/// requires only what all its alternatives require.
pub proof fn lemma_required_atoms_sound(e: ExprV, ps: Seq<Posting>, id: u32, a: AtomV)
    requires
        sat(e, ps, id),
        required(e, false).contains(a),
    ensures
        posting_of(ps, a).contains(id),
{
    lemma_required_sound_under(e, ps, id, false, a);
}

/// A candidate selects, among the posts of `universe`, exactly those satisfying `e`.
pub open spec fn selects(c: Candidate, e: ExprV, ps: Seq<Posting>, universe: Set<u32>) -> bool {
    forall|id: u32| universe.contains(id) ==> (#[trigger] holds(c, id) == sat(e, ps, id))
}

proof fn lemma_count_matches(cands: Seq<Candidate>, cs: Seq<ExprV>, ps: Seq<Posting>, universe: Set<u32>, id: u32)
    requires
        cands.len() == cs.len(),
        universe.contains(id),
        forall|k: int| 0 <= k < cs.len() ==> selects(#[trigger] cands[k], cs[k], ps, universe),
    ensures
        count_holds(cands, id) == count_sat(cs, ps, id),
    decreases cs.len(),
{
    if cs.len() > 0 {
        let n = cs.len() - 1;
        assert forall|k: int| 0 <= k < cs.drop_last().len() implies selects(#[trigger] cands.drop_last()[k], cs.drop_last()[k], ps, universe) by {
            assert(cands.drop_last()[k] == cands[k]);
            assert(cs.drop_last()[k] == cs[k]);
        }
        lemma_count_matches(cands.drop_last(), cs.drop_last(), ps, universe, id);
        assert(selects(cands[n], cs[n], ps, universe));
        assert(holds(cands[n], id) == sat(cs[n], ps, id));
    }
}

/// The posting of an atom among those given.
pub fn lookup(ps: &Vec<Posting>, atom: &QueryAtom) -> (r: RoaringBitmap)
    ensures
        bitmap_set(r) == posting_of(ps@, atom@),
{
    let mut i: usize = 0;
    assert(ps@.skip(0) =~= ps@);
    while i < ps.len()
        invariant
            i <= ps@.len(),
            posting_of(ps@, atom@) == posting_of(ps@.skip(i as int), atom@),
        decreases ps.len() - i,
    {
        assert(ps@.skip(i as int)[0] == ps@[i as int]);
        assert(ps@.skip(i as int).drop_first() =~= ps@.skip(i + 1));
        if ps[i].atom.same(atom) {
            return bitmap_clone(&ps[i].ids);
        }
        i = i + 1;
    }
    assert(ps@.skip(i as int) =~= Seq::<Posting>::empty());
    bitmap_new()
}

/// The posts a query selects, given the postings of its atoms; a complement stays a
/// complement, and `universe` (every post of the index) is used only where an exactly-one
/// group holds a complement.
#[verifier::loop_isolation(false)]
pub fn eval(expr: &QueryExpr, ps: &Vec<Posting>, universe: &RoaringBitmap) -> (r: Candidate)
    ensures
        selects(r, expr@, ps@, bitmap_set(*universe)),
    decreases expr,
{
    match expr {
        QueryExpr::Atom { atom } => Candidate::Finite(lookup(ps, atom)),
        QueryExpr::Not { child } => eval(child, ps, universe).complement(),
        QueryExpr::Group { group } => {
            proof { lemma_child_views(group); }
            let ghost cs = views(group.children@);
            let ghost u = bitmap_set(*universe);
            let mut cands: Vec<Candidate> = Vec::new();
            let mut i: usize = 0;
            while i < group.children.len()
                invariant
                    i <= group.children@.len(),
                    cs == views(group.children@),
                    u == bitmap_set(*universe),
                    cands@.len() == i,
                    forall|k: int| 0 <= k < i ==> selects(#[trigger] cands@[k], cs[k], ps@, u),
                decreases group.children.len() - i,
            {
                proof { assert(decreases_to!(group.children => group.children@[i as int])); }
                let c = eval(&group.children[i], ps, universe);
                assert(cs[i as int] == group.children@[i as int]@);
                cands.push(c);
                i = i + 1;
            }
            let ghost all = cands@;
            assert(expr@ == ExprV::Group(group.op, cs));
            assert(all.len() == cs.len());
            match group.op {
                BoolOp::And => {
                    let r = conjunction(cands);
                    proof {
                        assert forall|id: u32| u.contains(id) implies (#[trigger] holds(r, id) == sat(expr@, ps@, id)) by {
                            assert(holds(r, id) == all_hold(all, id));
                            let g = ExprV::Group(BoolOp::And, cs);
                            lemma_all_sat(cs, ps@, id);
                            if all_hold(all, id) {
                                assert forall|k: int| 0 <= k < cs.len() implies sat(#[trigger] cs[k], ps@, id) by {
                                    assert(selects(all[k], cs[k], ps@, u));
                                    assert(holds(all[k], id));
                                }
                                assert(sat(g, ps@, id));
                            } else {
                                let k = choose|k: int| 0 <= k < all.len() && !holds(#[trigger] all[k], id);
                                assert(selects(all[k], cs[k], ps@, u));
                                assert(!sat(cs[k], ps@, id));
                                assert(0 <= k < cs.len());
                                assert(!sat(g, ps@, id));
                            }
                        }
                    }
                    r
                },
                BoolOp::Or => {
                    let r = disjunction(cands);
                    proof {
                        assert forall|id: u32| u.contains(id) implies (#[trigger] holds(r, id) == sat(expr@, ps@, id)) by {
                            assert(holds(r, id) == any_holds(all, id));
                            lemma_any_sat(cs, ps@, id);
                            if any_holds(all, id) {
                                let k = choose|k: int| 0 <= k < all.len() && holds(#[trigger] all[k], id);
                                assert(selects(all[k], cs[k], ps@, u));
                                assert(sat(cs[k], ps@, id));
                            } else {
                                assert forall|k: int| 0 <= k < cs.len() implies !sat(#[trigger] cs[k], ps@, id) by {
                                    assert(selects(all[k], cs[k], ps@, u));
                                    assert(!holds(all[k], id));
                                }
                            }
                        }
                    }
                    r
                },
                BoolOp::Xor => {
                    let r = exactly_one_of(cands, universe);
                    proof {
                        assert forall|id: u32| u.contains(id) implies (#[trigger] holds(r, id) == sat(expr@, ps@, id)) by {
                            lemma_count_matches(all, cs, ps@, u, id);
                        }
                    }
                    r
                },
            }
        },
    }
}

/// `head` kept where the candidate holds it (all of it without a candidate).
pub open spec fn kept_ids(head: Seq<u32>, c: Option<Candidate>) -> Seq<u32> {
    match c {
        Some(c) => head.filter(|id: u32| holds(c, id)),
        None => head,
    }
}

/// The first `limit` ids of a cached head of a sort order that the candidate holds, when
/// the head has that many; without a candidate, an empty head also answers a zero limit.
pub open spec fn head_answer(head: Seq<u32>, c: Option<Candidate>, limit: nat) -> Option<Seq<u32>> {
    let kept = kept_ids(head, c);
    if limit > 0 && kept.len() >= limit {
        Some(kept.take(limit as int))
    } else if limit == 0 && c is None && head.len() == 0 {
        Some(Seq::empty())
    } else {
        None
    }
}

pub fn head_ids(head: &[u32], candidate: Option<&Candidate>, limit: usize) -> (r: Option<Vec<u32>>)
    ensures
        match head_answer(head@, match candidate { Some(c) => Some(*c), None => None }, limit as nat) {
            Some(ids) => r matches Some(v) && v@ == ids,
            None => r is None,
        },
{
    let ghost c = match candidate { Some(c) => Some(*c), None => None };
    let mut ids: Vec<u32> = Vec::new();
    let mut i: usize = 0;
    while i < head.len()
        invariant
            i <= head@.len(),
            c == match candidate { Some(c) => Some(*c), None => None::<Candidate> },
            ids@ == kept_ids(head@.take(i as int), c),
            limit > 0 ==> ids@.len() < limit,
            limit == 0 && i > 0 && c is None ==> ids@.len() > 0,
        decreases head.len() - i,
    {
        let id = head[i];
        proof {
            assert(head@.take(i + 1) =~= head@.take(i as int).push(id));
            match c {
                Some(cc) => { head@.take(i as int).lemma_filter_push(id, |x: u32| holds(cc, x)); },
                None => {},
            }
        }
        let keep = match candidate {
            Some(cand) => cand.contains(id),
            None => true,
        };
        if keep {
            ids.push(id);
            if ids.len() == limit {
                proof {
                    let kept = kept_ids(head@, c);
                    let pre = head@.take(i + 1);
                    assert(head@ =~= pre + head@.skip(i + 1));
                    match c {
                        Some(cc) => {
                            Seq::filter_distributes_over_add(pre, head@.skip(i + 1), |x: u32| holds(cc, x));
                        },
                        None => {},
                    }
                    assert(kept.take(limit as int) =~= ids@);
                }
                return Some(ids);
            }
        }
        i = i + 1;
    }
    assert(head@.take(i as int) =~= head@);
    if candidate.is_none() && ids.len() == limit {
        Some(ids)
    } else {
        None
    }
}

/// `RoaringBitmap::iter`, collected: the ids in ascending order.
#[verifier::external_body]
pub(crate) fn bitmap_ids(b: &RoaringBitmap) -> (r: Vec<u32>)
    ensures
        forall|i: int, j: int| 0 <= i < j < r@.len() ==> r@[i] < r@[j],
        forall|id: u32| #[trigger] bitmap_set(*b).contains(id) <==> r@.contains(id),
{
    b.iter().collect()
}

/// A post has a sort key: a slot in the table that is not 0.
pub open spec fn keyed(keys: Seq<u64>, id: u32) -> bool {
    (id as int) < keys.len() && keys[id as int] != 0
}

/// `a` ranks above `b`: a greater key, or the same key and a greater id.
pub open spec fn above(keys: Seq<u64>, a: u32, b: u32) -> bool {
    keys[a as int] > keys[b as int] || (keys[a as int] == keys[b as int] && a > b)
}

/// `r` is the top of the keyed posts of `pool` by rank: at most `limit` of them, in
/// descending rank; every keyed post left out ranks below all of them, and none is left
/// out while there is room.
pub open spec fn top_ranked(keys: Seq<u64>, pool: Set<u32>, limit: nat, r: Seq<u32>) -> bool {
    &&& r.len() <= limit
    &&& forall|k: int| 0 <= k < r.len() ==> pool.contains(#[trigger] r[k]) && keyed(keys, r[k])
    &&& forall|a: int, b: int| 0 <= a < b < r.len() ==> above(keys, #[trigger] r[a], #[trigger] r[b])
    &&& forall|x: u32| pool.contains(x) && keyed(keys, x) && !r.contains(x) ==>
            r.len() == limit && (limit == 0 || above(keys, r.last(), x))
}

fn ranks_above(keys: &[u64], a: u32, b: u32) -> (r: bool)
    requires
        (a as int) < keys@.len(),
        (b as int) < keys@.len(),
    ensures
        r == above(keys@, a, b),
{
    let ka = keys[a as usize];
    let kb = keys[b as usize];
    ka > kb || (ka == kb && a > b)
}

/// The ids of the `limit` highest-ranked keyed posts of the bitmap, best first.
pub fn local_sorted_ids_from_keys(bitmap: &RoaringBitmap, keys: &[u64], limit: usize) -> (r: Vec<u32>)
    ensures
        top_ranked(keys@, bitmap_set(*bitmap), limit as nat, r@),
{
    if limit == 0 {
        return Vec::new();
    }
    let ids = bitmap_ids(bitmap);
    let mut top: Vec<u32> = Vec::new();
    let mut i: usize = 0;
    while i < ids.len()
        invariant
            limit > 0,
            i <= ids@.len(),
            forall|a: int, b: int| 0 <= a < b < ids@.len() ==> ids@[a] < ids@[b],
            top_ranked(keys@, ids@.take(i as int).to_set(), limit as nat, top@),
        decreases ids.len() - i,
    {
        let x = ids[i];
        let ghost pool = ids@.take(i as int).to_set();
        let ghost pool2 = ids@.take(i + 1).to_set();
        assert(ids@.take(i + 1) =~= ids@.take(i as int).push(x));
        assert(pool2 =~= pool.insert(x)) by {
            ids@.take(i as int).lemma_push_to_set_commute(x);
        }
        assert(!pool.contains(x)) by {
            let t0 = ids@.take(i as int);
            if pool.contains(x) {
                let k = choose|k: int| 0 <= k < t0.len() && t0[k] == x;
                assert(t0[k] == ids@[k]);
                assert(ids@[k] < ids@[i as int]);
            }
        }
        assert(!top@.contains(x));
        if (x as usize) < keys.len() && keys[x as usize] != 0 {
            if top.len() < limit || ranks_above(keys, x, top[top.len() - 1]) {
                let ghost before = top@;
                let ghost full = top.len() == limit;
                if top.len() == limit {
                    top.pop();
                }
                let ghost kept = top@;
                let mut p: usize = 0;
                while p < top.len() && ranks_above(keys, top[p], x)
                    invariant
                        p <= top@.len(),
                        top@ == kept,
                        (x as int) < keys@.len(),
                        forall|k: int| 0 <= k < kept.len() ==> keyed(keys@, #[trigger] kept[k]),
                        forall|k: int| 0 <= k < p ==> above(keys@, #[trigger] kept[k], x),
                    decreases top.len() - p,
                {
                    p = p + 1;
                }
                top.insert(p, x);
                proof {
                    lemma_insert_ranked(keys@, pool, x, limit as nat, before, kept, full, p as int, top@);
                }
            } else {
                proof {
                    let last = top@.last();
                    assert(top@.len() == limit);
                    assert(above(keys@, last, x)) by {
                        assert(x != last);
                    }
                    assert(top_ranked(keys@, pool2, limit as nat, top@)) by {
                        assert forall|y: u32| pool2.contains(y) && keyed(keys@, y) && !top@.contains(y) implies
                            top@.len() == limit && (limit == 0 || above(keys@, top@.last(), y)) by {
                            if y != x {
                                assert(pool.contains(y));
                            }
                        }
                    }
                }
            }
        } else {
            proof {
                assert(top_ranked(keys@, pool2, limit as nat, top@)) by {
                    assert forall|y: u32| pool2.contains(y) && keyed(keys@, y) && !top@.contains(y) implies
                        top@.len() == limit && (limit == 0 || above(keys@, top@.last(), y)) by {
                        if y != x {
                            assert(pool.contains(y));
                        }
                    }
                }
            }
        }
        i = i + 1;
    }
    proof {
        assert(ids@.take(i as int) =~= ids@);
        assert(ids@.to_set() =~= bitmap_set(*bitmap)) by {
            assert forall|y: u32| ids@.to_set().contains(y) <==> bitmap_set(*bitmap).contains(y) by {
                if ids@.to_set().contains(y) {
                    assert(ids@.contains(y));
                }
            }
        }
    }
    top
}

/// Inserting a post at its rank keeps the top ranked, dropping the lowest one when full.
proof fn lemma_insert_ranked(
    keys: Seq<u64>,
    pool: Set<u32>,
    x: u32,
    limit: nat,
    before: Seq<u32>,
    kept: Seq<u32>,
    full: bool,
    p: int,
    after: Seq<u32>,
)
    requires
        limit > 0,
        top_ranked(keys, pool, limit, before),
        !pool.contains(x),
        keyed(keys, x),
        full == (before.len() == limit),
        full ==> above(keys, x, before.last()) && kept == before.drop_last(),
        !full ==> kept == before && before.len() < limit,
        0 <= p <= kept.len(),
        forall|k: int| 0 <= k < p ==> above(keys, #[trigger] kept[k], x),
        p < kept.len() ==> !above(keys, kept[p], x),
        after == kept.insert(p, x),
    ensures
        top_ranked(keys, pool.insert(x), limit, after),
{
    let pool2 = pool.insert(x);
    assert(after.len() == kept.len() + 1);
    assert(forall|k: int| 0 <= k < kept.len() ==> #[trigger] kept[k] == before[k]);
    assert forall|k: int| 0 <= k < after.len() implies
        #[trigger] after[k] == (if k < p { kept[k] } else if k == p { x } else { kept[k - 1] }) by {}
    // every kept post lies strictly below its predecessors
    assert forall|a: int, b: int| 0 <= a < b < kept.len() implies above(keys, #[trigger] kept[a], #[trigger] kept[b]) by {
        assert(above(keys, before[a], before[b]));
    }
    // x ranks above every kept post from p on
    assert forall|k: int| p <= k < kept.len() implies above(keys, x, #[trigger] kept[k]) by {
        assert(pool.contains(kept[p]));
        assert(kept[p] != x);
        assert(above(keys, x, kept[p]));
        if k > p {
            assert(above(keys, kept[p], kept[k]));
        }
    }
    assert forall|a: int, b: int| 0 <= a < b < after.len() implies above(keys, #[trigger] after[a], #[trigger] after[b]) by {
        if b < p {
        } else if b == p {
        } else if a < p {
            assert(above(keys, kept[a], kept[b - 1]));
        } else if a == p {
            assert(above(keys, x, kept[b - 1]));
        } else {
            assert(above(keys, kept[a - 1], kept[b - 1]));
        }
    }
    assert forall|k: int| 0 <= k < after.len() implies pool2.contains(#[trigger] after[k]) && keyed(keys, after[k]) by {
        if k != p {
            let j = if k < p { k } else { k - 1 };
            assert(after[k] == before[j]);
        }
    }
    // the last post of the new top ranks above the old last one
    if full {
        let old_last = before.last();
        assert(above(keys, after.last(), old_last)) by {
            if p == kept.len() {
                assert(after.last() == x);
            } else {
                assert(after.last() == kept.last());
                assert(kept.last() == before[before.len() - 2]);
                assert(above(keys, before[before.len() - 2], before[before.len() - 1]));
            }
        }
    }
    assert forall|y: u32| pool2.contains(y) && keyed(keys, y) && !after.contains(y) implies
        after.len() == limit && (limit == 0 || above(keys, after.last(), y)) by {
        assert(y != x) by {
            assert(after[p] == x);
        }
        assert(pool.contains(y));
        if before.contains(y) {
            let j = choose|j: int| 0 <= j < before.len() && before[j] == y;
            if j < kept.len() {
                let k = if j < p { j } else { j + 1 };
                assert(after[k] == y);
            }
            assert(full);
            assert(y == before.last());
        } else {
            assert(before.len() == limit);
            assert(above(keys, before.last(), y));
        }
    }
}

/// The empty query (an `AND` of nothing) selects every post.
pub proof fn lemma_empty_query_selects_all(ps: Seq<Posting>, id: u32)
    ensures
        sat(crate::model::empty_and(), ps, id),
{
    assert(all_sat(Seq::<ExprV>::empty(), ps, id));
}

} // verus!
