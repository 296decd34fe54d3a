//! The surface of a query: the tree its filter text reads back as. Rendering a query and
//! rendering its surface give the same text, so where the surface is canonical the text
//! is stable under a further parse and render.
use vstd::prelude::*;

use crate::filter_expression::{
    as_child, children_render, core_render, op_word, parse_spec, render_expr, render_spec,
    with_not, FaultV,
};
use crate::filter_expression::{atom_source, word_token, TokV};
use crate::filter_laws::{atom_ok, canon, canon_children, fits, lemma_render_then_parse, word_lexes};
use crate::model::{atom_parse, denote, empty_and, AtomV, BoolOp, ExprV};

verus! {

/// `x`, negated when `p`.
pub open spec fn neg_if(x: ExprV, p: bool) -> ExprV {
    if p { ExprV::Not(Box::new(x)) } else { x }
}

/// A child of an `op` group as the text lays it out: a group of the same `AND` or `OR`
/// runs on into its parent, anything else stays one child.
pub open spec fn spliced(op: BoolOp, x: ExprV) -> Seq<ExprV> {
    match x {
        ExprV::Group(op2, ks) => if op2 == op && op != BoolOp::Xor { ks } else { seq![x] },
        _ => seq![x],
    }
}

/// The tree the text of `e`, negated once more when `p`, reads back as: negations folded
/// to their parity, one-child groups replaced by their child, and same-operator `AND` and
/// `OR` groups merged into their parent; `None` when some group is empty.
pub open spec fn surf_p(e: ExprV, p: bool) -> Option<ExprV>
    decreases e, 0nat,
{
    match e {
        ExprV::Atom(_) => Some(neg_if(e, p)),
        ExprV::Not(c) => surf_p(*c, !p),
        ExprV::Group(op, cs) => if cs.len() == 0 {
            None
        } else if cs.len() == 1 {
            match surf_p(cs[0], false) {
                Some(x) => Some(neg_if(x, p)),
                None => None,
            }
        } else {
            match surf_all(op, cs) {
                Some(ks) => Some(neg_if(ExprV::Group(op, ks), p)),
                None => None,
            }
        },
    }
}

/// The surfaces of the children of an `op` group, laid out side by side.
pub open spec fn surf_all(op: BoolOp, cs: Seq<ExprV>) -> Option<Seq<ExprV>>
    decreases cs, 1nat,
{
    if cs.len() == 0 {
        Some(Seq::empty())
    } else {
        match surf_p(cs[0], false) {
            None => None,
            Some(x) => match surf_all(op, cs.drop_first()) {
                Some(rest) => Some(spliced(op, x) + rest),
                None => None,
            },
        }
    }
}

/// The tree the text of `e` reads back as.
pub open spec fn surface(e: ExprV) -> Option<ExprV> {
    surf_p(e, false)
}

/// No negation stands directly on another.
pub open spec fn nodn(e: ExprV) -> bool
    decreases e, 0nat,
{
    match e {
        ExprV::Atom(_) => true,
        ExprV::Not(c) => !(*c is Not) && nodn(*c),
        ExprV::Group(_, cs) => nodn_all(cs),
    }
}

pub open spec fn nodn_all(cs: Seq<ExprV>) -> bool
    decreases cs, 1nat,
{
    if cs.len() == 0 { true } else { nodn(cs[0]) && nodn_all(cs.drop_first()) }
}

proof fn lemma_nodn_all_append(a: Seq<ExprV>, b: Seq<ExprV>)
    ensures
        nodn_all(a + b) == (nodn_all(a) && nodn_all(b)),
    decreases a.len(),
{
    if a.len() > 0 {
        assert((a + b).drop_first() =~= a.drop_first() + b);
        assert((a + b)[0] == a[0]);
        lemma_nodn_all_append(a.drop_first(), b);
    } else {
        assert(a + b =~= b);
    }
}

proof fn lemma_canon_nodn(e: ExprV)
    requires
        canon(e),
    ensures
        nodn(e),
    decreases e, 0nat,
{
    match e {
        ExprV::Atom(_) => {},
        ExprV::Not(c) => lemma_canon_nodn(*c),
        ExprV::Group(op, cs) => lemma_canon_nodn_all(op, cs),
    }
}

proof fn lemma_canon_nodn_all(op: BoolOp, cs: Seq<ExprV>)
    requires
        canon_children(op, cs),
    ensures
        nodn_all(cs),
    decreases cs, 1nat,
{
    if cs.len() > 0 {
        lemma_canon_nodn(cs[0]);
        lemma_canon_nodn_all(op, cs.drop_first());
    }
}

/// Two runs of children, each rendered, render joined by the operator.
proof fn lemma_children_render_append(a: Seq<ExprV>, b: Seq<ExprV>, op: BoolOp)
    requires
        a.len() > 0,
        b.len() > 0,
        children_render(a, op) is Some,
        children_render(b, op) is Some,
    ensures
        children_render(a + b, op) == Some(
            children_render(a, op).unwrap() + seq![' '] + op_word(op) + seq![' '] + children_render(b, op).unwrap(),
        ),
    decreases a.len(),
{
    let ab = a + b;
    assert(ab[0] == a[0]);
    if a.len() == 1 {
        assert(ab.drop_first() =~= b);
    } else {
        assert(ab.drop_first() =~= a.drop_first() + b);
        lemma_children_render_append(a.drop_first(), b, op);
    }
}

/// Every group of a surface has at least two children.
proof fn lemma_surf_groups(e: ExprV, p: bool)
    ensures
        surf_p(e, p) matches Some(x) ==> (x matches ExprV::Group(_, ks) ==> ks.len() >= 2),
        surf_p(e, p) matches Some(x) ==> (x matches ExprV::Not(y) ==> (*y matches ExprV::Group(_, ks) ==> ks.len() >= 2)),
    decreases e, 0nat,
{
    match e {
        ExprV::Atom(_) => {},
        ExprV::Not(c) => lemma_surf_groups(*c, !p),
        ExprV::Group(op, cs) => {
            if cs.len() == 1 {
                lemma_surf_groups(cs[0], false);
            } else if cs.len() >= 2 {
                lemma_surf_all_len(op, cs);
            }
        },
    }
}

proof fn lemma_surf_all_len(op: BoolOp, cs: Seq<ExprV>)
    ensures
        surf_all(op, cs) matches Some(ks) ==> ks.len() >= cs.len(),
    decreases cs, 1nat,
{
    if cs.len() > 0 {
        lemma_surf_groups(cs[0], false);
        lemma_surf_all_len(op, cs.drop_first());
    }
}

/// The text of `e` (negated once more when `p`) is the text of its surface.
proof fn lemma_surf_render(e: ExprV, p: bool)
    requires
        surf_p(e, p) is Some,
        nodn(surf_p(e, p)->0),
    ensures
        core_render(e) is Some,
        render_expr(surf_p(e, p)->0) == Some(with_not(core_render(e)->0, denote(e).0 != p)),
    decreases e, 0nat,
{
    reveal_with_fuel(denote, 2);
    reveal_with_fuel(core_render, 2);
    match e {
        ExprV::Atom(_) => {},
        ExprV::Not(c) => {
            lemma_surf_render(*c, !p);
        },
        ExprV::Group(op, cs) => {
            if cs.len() == 1 {
                let y = surf_p(cs[0], false)->0;
                lemma_surf_render(cs[0], false);
                if p {
                    assert(!(y is Not));
                    assert(denote(y) == (false, y));
                }
            } else {
                let ks = surf_all(op, cs)->0;
                let g = ExprV::Group(op, ks);
                assert(surf_p(e, p)->0 == neg_if(g, p));
                assert(nodn(g));
                assert(nodn_all(ks));
                lemma_surf_all_len(op, cs);
                lemma_surf_all_render(op, cs);
                assert(denote(g) == (false, g));
            }
        },
    }
}

/// The children of an `op` group render as the laid-out surfaces of the children.
proof fn lemma_surf_all_render(op: BoolOp, cs: Seq<ExprV>)
    requires
        cs.len() >= 1,
        surf_all(op, cs) is Some,
        nodn_all(surf_all(op, cs)->0),
    ensures
        children_render(cs, op) is Some,
        children_render(cs, op) == children_render(surf_all(op, cs)->0, op),
    decreases cs, 1nat,
{
    reveal_with_fuel(denote, 2);
    let x0 = surf_p(cs[0], false)->0;
    let rest = surf_all(op, cs.drop_first())->0;
    let ks = surf_all(op, cs)->0;
    assert(ks == spliced(op, x0) + rest);
    lemma_nodn_all_append(spliced(op, x0), rest);
    lemma_surf_groups(cs[0], false);
    lemma_surf_all_len(op, cs.drop_first());
    let joined_case = x0 matches ExprV::Group(op2, _) && op2 == op && op != BoolOp::Xor;
    if !joined_case {
        assert(spliced(op, x0) == seq![x0]);
        assert(seq![x0].drop_first() =~= Seq::<ExprV>::empty());
        assert(nodn(x0));
    }
    lemma_surf_render(cs[0], false);
    let r0 = with_not(core_render(cs[0])->0, denote(cs[0]).0);
    assert(render_expr(x0) == Some(r0));
    if cs.len() > 1 {
        lemma_surf_all_render(op, cs.drop_first());
    } else {
        assert(cs.drop_first().len() == 0);
        assert(rest =~= Seq::<ExprV>::empty());
    }
    if joined_case {
        let ks0 = x0->Group_1;
        assert(spliced(op, x0) == ks0);
        assert(denote(x0) == (false, x0));
        assert(children_render(ks0, op) is Some);
        assert(as_child(r0, op) == children_render(ks0, op)->0);
        if cs.len() > 1 {
            lemma_children_render_append(ks0, rest, op);
        } else {
            assert(ks =~= ks0);
        }
    } else {
        assert(ks[0] == x0);
        assert(ks.drop_first() =~= rest);
        assert(core_render(x0) is Some);
        assert(with_not(core_render(x0)->0, denote(x0).0) == r0);
    }
}

/// A word atom `a` whose text, written on its own, reads back as the atom `b` with the
/// same text (a tag written `rating:q` reads back as that rating).
pub open spec fn reads_as(a: AtomV, b: AtomV) -> bool {
    &&& !(a is Pattern)
    &&& atom_source(b) == atom_source(a)
    &&& word_lexes(atom_source(a), TokV::Atom(b))
}

/// The atom that `a`'s text reads back as: itself when it reads back as itself, otherwise
/// one with the same text.
pub open spec fn readback(a: AtomV) -> AtomV {
    if atom_ok(a) { a } else { choose|b: AtomV| reads_as(a, b) }
}

/// `a`'s text reads back as one atom with the same text.
pub open spec fn atom_reads(a: AtomV) -> bool {
    atom_ok(a) || exists|b: AtomV| reads_as(a, b)
}

/// `e` with every atom replaced by the atom its text reads back as.
pub open spec fn relabel(e: ExprV) -> ExprV
    decreases e, 0nat,
{
    match e {
        ExprV::Atom(a) => ExprV::Atom(readback(a)),
        ExprV::Not(c) => ExprV::Not(Box::new(relabel(*c))),
        ExprV::Group(op, cs) => ExprV::Group(op, relabel_all(cs)),
    }
}

pub open spec fn relabel_all(cs: Seq<ExprV>) -> Seq<ExprV>
    decreases cs, 1nat,
{
    if cs.len() == 0 { Seq::empty() } else { seq![relabel(cs[0])] + relabel_all(cs.drop_first()) }
}

/// `canon`, except that each atom need only read back as one with the same text.
pub open spec fn canon_text(e: ExprV) -> bool
    decreases e, 0nat,
{
    match e {
        ExprV::Atom(a) => atom_reads(a),
        ExprV::Not(c) => !(*c is Not) && canon_text(*c),
        ExprV::Group(op, cs) => cs.len() >= 2 && canon_text_children(op, cs),
    }
}

pub open spec fn canon_text_children(op: BoolOp, cs: Seq<ExprV>) -> bool
    decreases cs, 1nat,
{
    if cs.len() == 0 { true } else { canon_text(cs[0]) && fits(op, cs[0]) && canon_text_children(op, cs.drop_first()) }
}

proof fn lemma_relabel_all_shape(cs: Seq<ExprV>)
    ensures
        relabel_all(cs).len() == cs.len(),
        cs.len() > 0 ==> relabel_all(cs)[0] == relabel(cs[0]) && relabel_all(cs).drop_first() == relabel_all(cs.drop_first()),
    decreases cs.len(),
{
    if cs.len() > 0 {
        lemma_relabel_all_shape(cs.drop_first());
        assert((seq![relabel(cs[0])] + relabel_all(cs.drop_first())).drop_first() =~= relabel_all(cs.drop_first()));
    }
}

/// A word that lexes as an atom lexes as a tag or a rating.
proof fn lemma_read_atom_is_word(a: AtomV, b: AtomV)
    requires
        reads_as(a, b),
    ensures
        !(b is Pattern),
        atom_ok(b),
{
    let w = atom_source(a);
    assert(word_token(w, 0) == Ok::<TokV, crate::filter_expression::FaultV>(TokV::Atom(b)));
    assert(atom_parse(w) == Some(b));
}

proof fn lemma_readback(a: AtomV)
    requires
        atom_reads(a),
    ensures
        atom_source(readback(a)) == atom_source(a),
        atom_ok(readback(a)),
{
    if !atom_ok(a) {
        let b = choose|b: AtomV| reads_as(a, b);
        lemma_read_atom_is_word(a, b);
    }
}

/// Relabelling keeps every rendered text, negation parity and variant.
proof fn lemma_relabel_render(e: ExprV)
    requires
        canon_text_atoms(e),
    ensures
        core_render(relabel(e)) == core_render(e),
        denote(relabel(e)).0 == denote(e).0,
        render_expr(relabel(e)) == render_expr(e),
        (relabel(e) is Atom) == (e is Atom),
        (relabel(e) is Not) == (e is Not),
        (e matches ExprV::Group(op, cs) ==> relabel(e) matches ExprV::Group(op2, cs2) && op2 == op && cs2.len() == cs.len()),
    decreases e, 0nat,
{
    match e {
        ExprV::Atom(a) => {
            lemma_readback(a);
        },
        ExprV::Not(c) => {
            lemma_relabel_render(*c);
        },
        ExprV::Group(op, cs) => {
            lemma_relabel_all_shape(cs);
            if cs.len() >= 1 {
                assert(all_atoms_read(cs));
                assert(canon_text_atoms(cs[0]));
                lemma_relabel_render(cs[0]);
            }
            lemma_relabel_children_render(op, cs);
        },
    }
}

/// Every atom of `e` reads back as one with the same text.
pub open spec fn canon_text_atoms(e: ExprV) -> bool
    decreases e, 0nat,
{
    match e {
        ExprV::Atom(a) => atom_reads(a),
        ExprV::Not(c) => canon_text_atoms(*c),
        ExprV::Group(_, cs) => all_atoms_read(cs),
    }
}

pub open spec fn all_atoms_read(cs: Seq<ExprV>) -> bool
    decreases cs, 1nat,
{
    if cs.len() == 0 { true } else { canon_text_atoms(cs[0]) && all_atoms_read(cs.drop_first()) }
}

proof fn lemma_relabel_children_render(op: BoolOp, cs: Seq<ExprV>)
    requires
        all_atoms_read(cs),
    ensures
        children_render(relabel_all(cs), op) == children_render(cs, op),
    decreases cs, 1nat,
{
    lemma_relabel_all_shape(cs);
    if cs.len() > 0 {
        lemma_relabel_render(cs[0]);
        lemma_relabel_children_render(op, cs.drop_first());
    }
}

proof fn lemma_canon_text_atoms(e: ExprV)
    requires
        canon_text(e),
    ensures
        canon_text_atoms(e),
        nodn(e),
        canon(relabel(e)),
    decreases e, 0nat,
{
    match e {
        ExprV::Atom(a) => {
            lemma_readback(a);
        },
        ExprV::Not(c) => {
            lemma_canon_text_atoms(*c);
            lemma_relabel_render(*c);
        },
        ExprV::Group(op, cs) => {
            lemma_canon_text_children(op, cs);
            lemma_relabel_all_shape(cs);
        },
    }
}

proof fn lemma_canon_text_children(op: BoolOp, cs: Seq<ExprV>)
    requires
        canon_text_children(op, cs),
    ensures
        all_atoms_read(cs),
        nodn_all(cs),
        canon_children(op, relabel_all(cs)),
    decreases cs, 1nat,
{
    lemma_relabel_all_shape(cs);
    if cs.len() > 0 {
        lemma_canon_text_atoms(cs[0]);
        lemma_canon_text_children(op, cs.drop_first());
        lemma_relabel_render(cs[0]);
        let c = cs[0];
        match c {
            ExprV::Group(_, _) => {},
            _ => {},
        }
        assert(fits(op, relabel(cs[0])));
    }
}

/// The text `render` writes is stable: for a query whose surface has no negation on a
/// negation and whose atoms each read back as an atom with the same text, parsing the
/// text gives that surface with its atoms read back, and rendering that gives the text
/// again. The empty query is stable too.
pub proof fn lemma_render_parse_render(q: ExprV)
    requires
        q == empty_and() || (surface(q) matches Some(x) && canon_text(x)),
    ensures
        render_spec(q) matches Ok(s) && parse_spec(s) matches Ok(q2) && render_spec(q2) == Ok::<Seq<char>, FaultV>(s),
        q != empty_and() ==> parse_spec(render_spec(q)->Ok_0) == Ok::<ExprV, FaultV>(relabel(surface(q)->0)),
{
    if q == empty_and() {
        lemma_render_then_parse(q);
    } else {
        let x = surface(q)->0;
        lemma_canon_text_atoms(x);
        lemma_surf_render(q, false);
        lemma_relabel_render(x);
        let x2 = relabel(x);
        assert(render_expr(x2) == render_expr(q));
        assert(x2 != empty_and());
        assert(render_spec(q) == render_spec(x2));
        lemma_render_then_parse(x2);
    }
}

} // verus!
