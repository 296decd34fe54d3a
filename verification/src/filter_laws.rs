//! What the saved-filter language promises as a whole: a query written out by `render`
//! reads back, through `parse`, as the same query.
use vstd::prelude::*;

use crate::filter_expression::{
    as_child, atom_source, bare_end, chain_result, children_render, core_render, escaped,
    level_op, level_tok, lex_from, lex_one, op_prec, op_word, p_chain, p_expr, p_primary, p_unary,
    parse_spec, parse_tokens, pattern_from, render_expr, render_spec, tok_at, with_not, word_token,
    FaultV, Rendered, TokV,
};
use crate::model::empty_and;
use crate::text::{trim, trim_end, trim_start};
use crate::model::denote;
use crate::model::{AtomV, BoolOp, ExprV};
use crate::text::is_ws;

verus! {

/// The kinds of a token stream, positions dropped.
pub open spec fn kinds(t: Seq<(TokV, int)>) -> Seq<TokV> {
    t.map_values(|p: (TokV, int)| p.0)
}

/// The token kinds of `s` from `i` on, or `None` when lexing fails there.
pub open spec fn lex_kinds(s: Seq<char>, i: int) -> Option<Seq<TokV>> {
    match lex_from(s, i) {
        Ok(t) => Some(kinds(t)),
        Err(_) => None,
    }
}

/// `k` in front of what follows, failure staying failure.
pub open spec fn before(k: Seq<TokV>, rest: Option<Seq<TokV>>) -> Option<Seq<TokV>> {
    match rest {
        Some(r) => Some(k + r),
        None => None,
    }
}

/// Position `j` of `s` ends a bare word: the end of the text, a space, or `)`.
pub open spec fn boundary(s: Seq<char>, j: int) -> bool {
    j == s.len() || (0 <= j < s.len() && (s[j] == ' ' || s[j] == ')'))
}

/// `w` is read as one bare word giving `tok`, whatever boundary follows it.
pub open spec fn word_lexes(w: Seq<char>, tok: TokV) -> bool {
    &&& w.len() > 0
    &&& !is_ws(w[0]) && w[0] != '~' && w[0] != '(' && w[0] != ')' && w[0] != '/'
    &&& bare_end(w, 0, 0) == w.len()
    &&& bare_end(w.push(' '), 0, 0) == w.len()
    &&& bare_end(w.push(')'), 0, 0) == w.len()
    &&& word_token(w, 0) == Ok::<TokV, crate::filter_expression::FaultV>(tok)
}

pub proof fn lemma_kinds_cons(x: (TokV, int), t: Seq<(TokV, int)>)
    ensures
        kinds(seq![x] + t) == seq![x.0] + kinds(t),
{
    assert(kinds(seq![x] + t) =~= seq![x.0] + kinds(t));
}

/// White space is skipped.
pub proof fn lemma_lex_ws(s: Seq<char>, i: int)
    requires
        0 <= i < s.len(),
        is_ws(s[i]),
    ensures
        lex_kinds(s, i) == lex_kinds(s, i + 1),
{
}

/// `~`, `(` and `)` are tokens of their own.
pub proof fn lemma_lex_punct(s: Seq<char>, i: int)
    requires
        0 <= i < s.len(),
        s[i] == '~' || s[i] == '(' || s[i] == ')',
    ensures
        lex_kinds(s, i) == before(
            seq![if s[i] == '~' { TokV::Not } else if s[i] == '(' { TokV::Left } else { TokV::Right }],
            lex_kinds(s, i + 1),
        ),
{
    reveal_with_fuel(lex_from, 2);
    match lex_from(s, i + 1) {
        Ok(rest) => {
            let tok = if s[i] == '~' { TokV::Not } else if s[i] == '(' { TokV::Left } else { TokV::Right };
            lemma_kinds_cons((tok, i), rest);
        },
        Err(_) => {},
    }
}

/// The scan for the end of a bare word only looks at the characters it passes.
pub proof fn lemma_bare_end_within(s: Seq<char>, u: Seq<char>, i: int, j: int, d: nat)
    requires
        0 <= i,
        i + u.len() <= s.len(),
        s.subrange(i, i + u.len()) == u,
        i <= j <= i + u.len(),
        bare_end(u, j - i, d) < u.len() || i + u.len() == s.len(),
    ensures
        bare_end(s, j, d) == i + bare_end(u, j - i, d),
    decreases u.len() - (j - i),
{
    if j < i + u.len() {
        assert(s[j] == u[j - i]);
        let c = s[j];
        if is_ws(c) || c == '~' {
        } else if c == '(' {
            lemma_bare_end_within(s, u, i, j + 1, d + 1);
        } else if c == ')' {
            if d > 0 {
                lemma_bare_end_within(s, u, i, j + 1, (d - 1) as nat);
            }
        } else {
            lemma_bare_end_within(s, u, i, j + 1, d);
        }
    }
}

/// A word that lexes on its own lexes the same way inside text, before a boundary.
pub proof fn lemma_lex_word(s: Seq<char>, i: int, w: Seq<char>, tok: TokV)
    requires
        0 <= i,
        i + w.len() <= s.len(),
        s.subrange(i, i + w.len()) == w,
        boundary(s, i + w.len()),
        word_lexes(w, tok),
    ensures
        lex_kinds(s, i) == before(seq![tok], lex_kinds(s, i + w.len())),
{
    let n = w.len();
    if i + n == s.len() {
        lemma_bare_end_within(s, w, i, i, 0);
    } else {
        let u = w.push(s[i + n]);
        assert(s.subrange(i, i + n + 1) =~= u);
        assert(u.len() == n + 1);
        if s[i + n] == ' ' {
            assert(u == w.push(' '));
        } else {
            assert(u == w.push(')'));
        }
        lemma_bare_end_within(s, u, i, i, 0);
    }
    assert(bare_end(s, i, 0) == i + n);
    assert(s[i] == w[0]);
    assert(s.subrange(i, bare_end(s, i, 0)) == w);
    assert(word_token(w, i) == word_token(w, 0));
    assert(lex_one(s, i) == Ok::<(TokV, int), crate::filter_expression::FaultV>((tok, i + n)));
    match lex_from(s, i + n) {
        Ok(rest) => {
            lemma_kinds_cons((tok, i), rest);
        },
        Err(_) => {},
    }
}

/// One character as a pattern writes it: `/` escaped by a backslash.
pub open spec fn escaped_char(c: char) -> Seq<char> {
    if c == '/' { seq!['\\', '/'] } else { seq![c] }
}

pub proof fn lemma_escaped_front(c: char, q: Seq<char>)
    ensures
        escaped(seq![c] + q) == escaped_char(c) + escaped(q),
    decreases q.len(),
{
    let cq = seq![c] + q;
    if q.len() == 0 {
        assert(cq =~= seq![c]);
        assert(cq.drop_last() =~= Seq::<char>::empty());
        assert(escaped(Seq::<char>::empty()) == Seq::<char>::empty());
        assert(escaped(cq) =~= escaped_char(c));
    } else {
        assert(cq.drop_last() =~= seq![c] + q.drop_last());
        assert(cq.last() == q.last());
        lemma_escaped_front(c, q.drop_last());
        assert(escaped(cq) =~= escaped_char(c) + escaped(q));
    }
}

/// A pattern's escaped text reads back as the pattern, up to its closing `/`, unless the
/// pattern ends with a backslash (which would escape that `/`).
pub proof fn lemma_pattern_reads(s: Seq<char>, j: int, acc: Seq<char>, q: Seq<char>)
    requires
        0 <= j,
        j + escaped(q).len() + 1 <= s.len(),
        s.subrange(j, j + escaped(q).len() + 1) == escaped(q).push('/'),
        q.len() == 0 || q.last() != '\\',
    ensures
        pattern_from(s, j, acc) == Some((acc + q, j + escaped(q).len() + 1)),
    decreases q.len(),
{
    let n = escaped(q).len();
    if q.len() == 0 {
        assert(escaped(q).len() == 0);
        assert(s[j] == escaped(q).push('/')[0]);
        assert(acc + q =~= acc);
    } else {
        let c = q[0];
        let rest = q.drop_first();
        assert(seq![c] + rest =~= q);
        lemma_escaped_front(c, rest);
        let m = escaped(rest).len();
        let body = escaped(q).push('/');
        assert(body =~= escaped_char(c) + escaped(rest).push('/'));
        if rest.len() > 0 {
            assert(rest.last() == q.last());
        }
        if c == '/' {
            assert(s[j] == body[0]);
            assert(s[j + 1] == body[1]);
            assert forall|k: int| 0 <= k < m + 1 implies #[trigger] s.subrange(j + 2, j + 2 + m + 1)[k] == escaped(rest).push('/')[k] by {
                assert(s.subrange(j, j + n + 1)[k + 2] == body[k + 2]);
            }
            assert(s.subrange(j + 2, j + 2 + m + 1) =~= escaped(rest).push('/'));
            lemma_pattern_reads(s, j + 2, acc.push('/'), rest);
            assert(acc.push('/') + rest =~= acc + q);
        } else {
            assert(s[j] == body[0]);
            assert forall|k: int| 0 <= k < m + 1 implies #[trigger] s.subrange(j + 1, j + 1 + m + 1)[k] == escaped(rest).push('/')[k] by {
                assert(s.subrange(j, j + n + 1)[k + 1] == body[k + 1]);
            }
            assert(s.subrange(j + 1, j + 1 + m + 1) =~= escaped(rest).push('/'));
            if c == '\\' {
                assert(s[j + 1] == body[1]);
                if rest.len() == 0 {
                    assert(q.last() == c);
                } else {
                    let r0 = rest[0];
                    assert(seq![r0] + rest.drop_first() =~= rest);
                    lemma_escaped_front(r0, rest.drop_first());
                    assert(body[1] == escaped(rest)[0]);
                    assert(escaped(rest)[0] == escaped_char(r0)[0]);
                }
                assert(s[j + 1] != '/');
            }
            lemma_pattern_reads(s, j + 1, acc.push(c), rest);
            assert(acc.push(c) + rest =~= acc + q);
        }
    }
}

/// A pattern atom that does not end with a backslash lexes as itself.
pub proof fn lemma_lex_pattern(s: Seq<char>, i: int, p: Seq<char>)
    requires
        0 <= i,
        i + atom_source(AtomV::Pattern(p)).len() <= s.len(),
        s.subrange(i, i + atom_source(AtomV::Pattern(p)).len()) == atom_source(AtomV::Pattern(p)),
        p.len() == 0 || p.last() != '\\',
    ensures
        lex_kinds(s, i) == before(
            seq![TokV::Atom(AtomV::Pattern(p))],
            lex_kinds(s, i + atom_source(AtomV::Pattern(p)).len()),
        ),
{
    let src = atom_source(AtomV::Pattern(p));
    let n = escaped(p).len();
    assert(src.len() == n + 2);
    assert(s[i] == src[0]);
    assert(src =~= seq!['/'] + escaped(p).push('/'));
    assert forall|k: int| 0 <= k < n + 1 implies #[trigger] s.subrange(i + 1, i + 1 + n + 1)[k] == escaped(p).push('/')[k] by {
        assert(s.subrange(i, i + n + 2)[k + 1] == src[k + 1]);
    }
    assert(s.subrange(i + 1, i + 1 + n + 1) =~= escaped(p).push('/'));
    lemma_pattern_reads(s, i + 1, Seq::empty(), p);
    assert(Seq::<char>::empty() + p =~= p);
    assert(lex_one(s, i) == Ok::<(TokV, int), crate::filter_expression::FaultV>((TokV::Atom(AtomV::Pattern(p)), i + n + 2)));
    match lex_from(s, i + n + 2) {
        Ok(rest) => {
            lemma_kinds_cons((TokV::Atom(AtomV::Pattern(p)), i), rest);
        },
        Err(_) => {},
    }
}

/// An atom that reads back as itself: a word that lexes as this atom whatever boundary
/// follows it, or a pattern that does not end with a backslash.
pub open spec fn atom_ok(a: AtomV) -> bool {
    match a {
        AtomV::Pattern(p) => p.len() == 0 || p.last() != '\\',
        _ => word_lexes(atom_source(a), TokV::Atom(a)),
    }
}

/// The operator's binding level in the parser: 1 `AND`, 2 `XOR`, 3 `OR`.
pub open spec fn op_level(op: BoolOp) -> nat {
    match op {
        BoolOp::And => 1,
        BoolOp::Xor => 2,
        BoolOp::Or => 3,
    }
}

pub open spec fn op_tok(op: BoolOp) -> TokV {
    match op {
        BoolOp::And => TokV::And,
        BoolOp::Xor => TokV::Xor,
        BoolOp::Or => TokV::Or,
    }
}

/// `c` may stand directly in a group of `op`: it is not a group of the same `AND` or
/// `OR`, which the text would merge into its parent.
pub open spec fn fits(op: BoolOp, c: ExprV) -> bool {
    match c {
        ExprV::Group(cop, _) => !(cop == op && op != BoolOp::Xor),
        _ => true,
    }
}

/// A query in the form `render` writes and `parse` reads: at most one negation in a row,
/// groups of at least two children, no `AND` directly in `AND` nor `OR` in `OR`, and atoms
/// that read back as themselves.
pub open spec fn canon(e: ExprV) -> bool
    decreases e,
{
    match e {
        ExprV::Atom(a) => atom_ok(a),
        ExprV::Not(c) => !(*c is Not) && canon(*c),
        ExprV::Group(op, cs) => cs.len() >= 2 && canon_children(op, cs),
    }
}

pub open spec fn canon_children(op: BoolOp, cs: Seq<ExprV>) -> bool
    decreases cs,
{
    if cs.len() == 0 {
        true
    } else {
        canon(cs[0]) && fits(op, cs[0]) && canon_children(op, cs.drop_first())
    }
}

/// A child of `op` that the text puts in parentheses.
pub open spec fn parenthesised(op: BoolOp, c: ExprV) -> bool {
    match c {
        ExprV::Group(cop, _) => op_level(cop) > op_level(op) || (op == BoolOp::Xor && cop == BoolOp::Xor),
        _ => false,
    }
}

/// The token kinds of a canonical query's text.
pub open spec fn toks(e: ExprV) -> Seq<TokV>
    decreases e,
{
    match e {
        ExprV::Atom(a) => seq![TokV::Atom(a)],
        ExprV::Not(c) => if *c is Group {
            seq![TokV::Not, TokV::Left] + toks(*c) + seq![TokV::Right]
        } else {
            seq![TokV::Not] + toks(*c)
        },
        ExprV::Group(op, cs) => children_toks(op, cs),
    }
}

pub open spec fn children_toks(op: BoolOp, cs: Seq<ExprV>) -> Seq<TokV>
    decreases cs,
{
    if cs.len() == 0 {
        Seq::empty()
    } else {
        let first = if parenthesised(op, cs[0]) {
            seq![TokV::Left] + toks(cs[0]) + seq![TokV::Right]
        } else {
            toks(cs[0])
        };
        if cs.len() == 1 { first } else { first + seq![op_tok(op)] + children_toks(op, cs.drop_first()) }
    }
}

/// What `render_expr` gives for a canonical query: some text, whose binding strength is
/// 5 for an atom, 4 for a negation and the operator's for a group.
pub open spec fn shape_ok(e: ExprV, r: Rendered) -> bool {
    &&& r.text.len() > 0
    &&& match e {
        ExprV::Atom(_) => r.prec == 5 && r.op is None,
        ExprV::Not(_) => r.prec == 4 && r.op is None,
        ExprV::Group(op, _) => r.prec == op_prec(op) && r.op == Some(op),
    }
}

pub proof fn lemma_render_canon(e: ExprV)
    requires
        canon(e),
    ensures
        render_expr(e) matches Some(r) && shape_ok(e, r),
        !(e is Not) ==> denote(e) == (false, e) && render_expr(e) == core_render(e),
    decreases e, 1nat,
{
    match e {
        ExprV::Atom(a) => {
            if a is Pattern {
                assert(atom_source(a).len() >= 2);
            }
        },
        ExprV::Not(c) => {
            lemma_render_canon(*c);
        },
        ExprV::Group(op, cs) => {
            lemma_children_render_canon(op, cs);
        },
    }
}

pub proof fn lemma_children_render_canon(op: BoolOp, cs: Seq<ExprV>)
    requires
        canon_children(op, cs),
    ensures
        children_render(cs, op) is Some,
        cs.len() > 0 ==> children_render(cs, op).unwrap().len() > 0,
    decreases cs, 0nat,
{
    if cs.len() > 0 {
        lemma_render_canon(cs[0]);
        lemma_children_render_canon(op, cs.drop_first());
    }
}

pub proof fn lemma_before_before(a: Seq<TokV>, b: Seq<TokV>, x: Option<Seq<TokV>>)
    ensures
        before(a, before(b, x)) == before(a + b, x),
{
    match x {
        Some(r) => {
            assert(a + (b + r) =~= (a + b) + r);
        },
        None => {},
    }
}

/// The text `render_expr` gives, or nothing.
pub open spec fn etext(e: ExprV) -> Seq<char> {
    match render_expr(e) {
        Some(r) => r.text,
        None => Seq::empty(),
    }
}

/// A piece of `s` is a piece of the text placed there.
pub proof fn lemma_sub(s: Seq<char>, i: int, t: Seq<char>, a: nat, b: nat)
    requires
        0 <= i,
        i + t.len() <= s.len(),
        s.subrange(i, i + t.len()) == t,
        0 <= a <= b <= t.len(),
    ensures
        s.subrange(i + a, i + b) == t.subrange(a as int, b as int),
        forall|k: int| a <= k < b ==> #[trigger] s[i + k] == t[k],
{
    assert forall|k: int| a <= k < b implies #[trigger] s[i + k] == t[k] by {
        assert(s.subrange(i, i + t.len())[k] == s[i + k]);
    }
    assert(s.subrange(i + a, i + b) =~= t.subrange(a as int, b as int));
}

/// The operator words lex as their operators.
pub proof fn lemma_op_words(op: BoolOp)
    ensures
        word_lexes(op_word(op), op_tok(op)),
{
    reveal_with_fuel(bare_end, 6);
    reveal_strlit("AND");
    reveal_strlit("OR");
    reveal_strlit("XOR");
    let w = op_word(op);
    assert(crate::text::is_ws(' '));
    match op {
        BoolOp::And => {
            assert(w.len() == 3);
            assert(w.push(' ')[3] == ' ');
            assert(w.push(')')[3] == ')');
        },
        BoolOp::Or => {
            assert(w.len() == 2);
            assert(w.push(' ')[2] == ' ');
            assert(w.push(')')[2] == ')');
        },
        BoolOp::Xor => {
            assert(w.len() == 3);
            assert(w.push(' ')[3] == ' ');
            assert(w.push(')')[3] == ')');
        },
    }
}

/// A canonical query's text, placed in `s` before a boundary, lexes as its tokens.
pub proof fn lemma_lex_expr(s: Seq<char>, i: int, e: ExprV)
    requires
        canon(e),
        0 <= i,
        i + etext(e).len() <= s.len(),
        s.subrange(i, i + etext(e).len()) == etext(e),
        boundary(s, i + etext(e).len()),
    ensures
        lex_kinds(s, i) == before(toks(e), lex_kinds(s, i + etext(e).len())),
    decreases e, 1nat,
{
    lemma_render_canon(e);
    let t = etext(e);
    let end = i + t.len();
    match e {
        ExprV::Atom(a) => {
            assert(t == atom_source(a));
            match a {
                AtomV::Pattern(p) => {
                    lemma_lex_pattern(s, i, p);
                },
                _ => {
                    lemma_lex_word(s, i, atom_source(a), TokV::Atom(a));
                },
            }
        },
        ExprV::Not(c) => {
            let c = *c;
            lemma_render_canon(c);
            let ct = etext(c);
            if c is Group {
                assert(t =~= seq!['~', '('] + ct + seq![')']);
                lemma_sub(s, i, t, 0, t.len());
                assert(s[i] == '~' && s[i + 1] == '(');
                lemma_lex_punct(s, i);
                lemma_lex_punct(s, i + 1);
                lemma_sub(s, i, t, 2, 2 + ct.len());
                assert(t.subrange(2, (2 + ct.len()) as int) =~= ct);
                assert(s[i + 2 + ct.len()] == ')');
                lemma_lex_expr(s, i + 2, c);
                lemma_lex_punct(s, i + 2 + ct.len());
                lemma_before_before(seq![TokV::Right], Seq::empty(), lex_kinds(s, end));
                lemma_before_before(toks(c), seq![TokV::Right], lex_kinds(s, end));
                lemma_before_before(seq![TokV::Left], toks(c) + seq![TokV::Right], lex_kinds(s, end));
                lemma_before_before(seq![TokV::Not], seq![TokV::Left] + (toks(c) + seq![TokV::Right]), lex_kinds(s, end));
                assert(seq![TokV::Not] + (seq![TokV::Left] + (toks(c) + seq![TokV::Right]))
                    =~= seq![TokV::Not, TokV::Left] + toks(c) + seq![TokV::Right]);
            } else {
                assert(t =~= seq!['~'] + ct);
                lemma_sub(s, i, t, 0, t.len());
                assert(s[i] == '~');
                lemma_lex_punct(s, i);
                lemma_sub(s, i, t, 1, 1 + ct.len());
                assert(t.subrange(1, (1 + ct.len()) as int) =~= ct);
                lemma_lex_expr(s, i + 1, c);
                lemma_before_before(seq![TokV::Not], toks(c), lex_kinds(s, end));
            }
        },
        ExprV::Group(op, cs) => {
            assert(t == children_render(cs, op).unwrap());
            lemma_lex_children(s, i, op, cs);
        },
    }
}

/// The tokens of a child as its parent's text shows it.
pub open spec fn child_toks(op: BoolOp, c: ExprV) -> Seq<TokV> {
    if parenthesised(op, c) { seq![TokV::Left] + toks(c) + seq![TokV::Right] } else { toks(c) }
}

/// The text of a child as its parent shows it.
pub open spec fn child_text(op: BoolOp, c: ExprV) -> Seq<char> {
    as_child(render_expr(c).unwrap(), op)
}

pub proof fn lemma_child_text(op: BoolOp, c: ExprV)
    requires
        canon(c),
    ensures
        child_text(op, c) == if parenthesised(op, c) { seq!['('] + etext(c) + seq![')'] } else { etext(c) },
{
    lemma_render_canon(c);
}

/// A child's text, placed before a boundary, lexes as its tokens.
pub proof fn lemma_lex_child(s: Seq<char>, i: int, op: BoolOp, c: ExprV)
    requires
        canon(c),
        0 <= i,
        i + child_text(op, c).len() <= s.len(),
        s.subrange(i, i + child_text(op, c).len()) == child_text(op, c),
        boundary(s, i + child_text(op, c).len()),
    ensures
        lex_kinds(s, i) == before(child_toks(op, c), lex_kinds(s, i + child_text(op, c).len())),
    decreases c, 2nat,
{
    lemma_child_text(op, c);
    let ch = child_text(op, c);
    let ct = etext(c);
    let after = lex_kinds(s, i + ch.len());
    if parenthesised(op, c) {
        lemma_sub(s, i, ch, 0, ch.len());
        assert(s[i] == '(');
        lemma_lex_punct(s, i);
        lemma_sub(s, i, ch, 1, 1 + ct.len());
        assert(ch.subrange(1, (1 + ct.len()) as int) =~= ct);
        assert(s[i + 1 + ct.len()] == ')');
        lemma_lex_expr(s, i + 1, c);
        lemma_lex_punct(s, i + 1 + ct.len());
        lemma_before_before(toks(c), seq![TokV::Right], after);
        lemma_before_before(seq![TokV::Left], toks(c) + seq![TokV::Right], after);
        assert(seq![TokV::Left] + (toks(c) + seq![TokV::Right]) =~= child_toks(op, c));
    } else {
        lemma_lex_expr(s, i, c);
    }
}

/// ` OP ` between two children lexes as the operator.
pub proof fn lemma_lex_sep(s: Seq<char>, j: int, op: BoolOp)
    requires
        0 <= j,
        j + op_word(op).len() + 2 <= s.len(),
        s.subrange(j, j + op_word(op).len() + 2) == seq![' '] + op_word(op) + seq![' '],
    ensures
        lex_kinds(s, j) == before(seq![op_tok(op)], lex_kinds(s, j + op_word(op).len() + 2)),
{
    let w = op_word(op);
    let sep = seq![' '] + w + seq![' '];
    lemma_sub(s, j, sep, 0, sep.len());
    assert(s[j] == ' ');
    lemma_lex_ws(s, j);
    lemma_op_words(op);
    lemma_sub(s, j, sep, 1, 1 + w.len());
    assert(sep.subrange(1, (1 + w.len()) as int) =~= w);
    assert(s[j + 1 + w.len()] == ' ');
    lemma_lex_word(s, j + 1, w, op_tok(op));
    lemma_lex_ws(s, j + 1 + w.len());
}

/// The children of a canonical group, joined by the operator, lex as their tokens.
pub proof fn lemma_lex_children(s: Seq<char>, i: int, op: BoolOp, cs: Seq<ExprV>)
    requires
        canon_children(op, cs),
        cs.len() >= 1,
        0 <= i,
        i + children_render(cs, op).unwrap().len() <= s.len(),
        s.subrange(i, i + children_render(cs, op).unwrap().len()) == children_render(cs, op).unwrap(),
        boundary(s, i + children_render(cs, op).unwrap().len()),
    ensures
        lex_kinds(s, i) == before(children_toks(op, cs), lex_kinds(s, i + children_render(cs, op).unwrap().len())),
    decreases cs, 3nat,
{
    lemma_children_render_canon(op, cs);
    let t = children_render(cs, op).unwrap();
    let c = cs[0];
    let ch = child_text(op, c);
    assert(with_not(core_render(c).unwrap(), denote(c).0) == render_expr(c).unwrap()) by {
        lemma_render_canon(c);
    }
    if cs.len() == 1 {
        assert(t == ch);
        lemma_lex_child(s, i, op, c);
    } else {
        let rest = children_render(cs.drop_first(), op).unwrap();
        let w = op_word(op);
        assert(t == ch + seq![' '] + w + seq![' '] + rest);
        lemma_lex_children_step(s, i, op, c, rest, t);
        lemma_lex_children(s, i + ch.len() + w.len() + 2, op, cs.drop_first());
        let tail = lex_kinds(s, i + t.len());
        lemma_before_before(seq![op_tok(op)], children_toks(op, cs.drop_first()), tail);
        lemma_before_before(child_toks(op, c), seq![op_tok(op)] + children_toks(op, cs.drop_first()), tail);
        assert(child_toks(op, c) + (seq![op_tok(op)] + children_toks(op, cs.drop_first()))
            =~= children_toks(op, cs));
    }
}

/// The first child and the operator after it, in `child OP rest`.
pub proof fn lemma_lex_children_step(s: Seq<char>, i: int, op: BoolOp, c: ExprV, rest: Seq<char>, t: Seq<char>)
    requires
        canon(c),
        t == child_text(op, c) + seq![' '] + op_word(op) + seq![' '] + rest,
        0 <= i,
        i + t.len() <= s.len(),
        s.subrange(i, i + t.len()) == t,
    ensures
        lex_kinds(s, i) == before(child_toks(op, c), before(seq![op_tok(op)],
            lex_kinds(s, i + child_text(op, c).len() + op_word(op).len() + 2))),
        s.subrange(i + child_text(op, c).len() + op_word(op).len() + 2, i + t.len()) == rest,
    decreases c, 3nat,
{
    let ch = child_text(op, c);
    let w = op_word(op);
    lemma_sub(s, i, t, 0, ch.len());
    assert(t.subrange(0, ch.len() as int) =~= ch);
    lemma_sub(s, i, t, ch.len(), ch.len() + w.len() + 2);
    assert(t.subrange(ch.len() as int, (ch.len() + w.len() + 2) as int) =~= seq![' '] + w + seq![' ']);
    assert(s[i + ch.len()] == ' ');
    lemma_lex_child(s, i, op, c);
    lemma_lex_sep(s, i + ch.len(), op);
    lemma_sub(s, i, t, ch.len() + w.len() + 2, t.len());
    assert(t.subrange((ch.len() + w.len() + 2) as int, t.len() as int) =~= rest);
}
/// The parser's level for a canonical query: its operator's, or 0 for atoms and negations.
pub open spec fn level_of(e: ExprV) -> nat {
    match e {
        ExprV::Group(op, _) => op_level(op),
        _ => 0,
    }
}

/// A token that ends an expression parsed at `level`: the end, `)`, or an operator that
/// binds more loosely.
pub open spec fn stops(tok: TokV, level: nat) -> bool {
    ||| tok is End
    ||| tok is Right
    ||| (tok is And && level < 1)
    ||| (tok is Xor && level < 2)
    ||| (tok is Or && level < 3)
}

/// The token kinds `k` stand in `t` from index `j` on.
pub open spec fn placed(t: Seq<(TokV, int)>, j: int, k: Seq<TokV>) -> bool {
    &&& 0 <= j
    &&& j + k.len() <= t.len()
    &&& forall|m: int| 0 <= m < k.len() ==> tok_at(t, j + m) == #[trigger] k[m]
}

pub proof fn lemma_placed_split(t: Seq<(TokV, int)>, j: int, a: Seq<TokV>, b: Seq<TokV>)
    requires
        placed(t, j, a + b),
    ensures
        placed(t, j, a),
        placed(t, j + a.len(), b),
{
    assert forall|m: int| 0 <= m < a.len() implies tok_at(t, j + m) == #[trigger] a[m] by {
        assert((a + b)[m] == a[m]);
    }
    assert forall|m: int| 0 <= m < b.len() implies tok_at(t, j + a.len() + m) == #[trigger] b[m] by {
        assert((a + b)[a.len() + m] == b[m]);
    }
}

/// A result at a lower level stands at every higher level when the next token stops it.
pub proof fn lemma_lift(t: Seq<(TokV, int)>, j: int, x: ExprV, n: int, lo: nat, level: nat)
    requires
        p_expr(t, j, lo) == Ok::<(ExprV, int), crate::filter_expression::FaultV>((x, n)),
        0 <= j < n <= t.len(),
        lo <= level <= 3,
        stops(tok_at(t, n), level),
    ensures
        p_expr(t, j, level) == Ok::<(ExprV, int), crate::filter_expression::FaultV>((x, n)),
    decreases level - lo,
{
    if level > lo {
        let below = (level - 1) as nat;
        lemma_lift(t, j, x, n, lo, below);
        assert(p_expr(t, j, below) == Ok::<(ExprV, int), crate::filter_expression::FaultV>((x, n)));
        assert(tok_at(t, n) != level_tok(level));
        assert(seq![x].len() == 1 && seq![x][0] == x);
        assert(p_chain(t, n, level, seq![x]) == chain_result(seq![x], level, n));
        assert(chain_result(seq![x], level, n) == Ok::<(ExprV, int), crate::filter_expression::FaultV>((x, n)));
    }
}

/// Tokens of canonical queries are never empty.
pub proof fn lemma_toks_nonempty(e: ExprV)
    requires
        canon(e),
    ensures
        toks(e).len() > 0,
{
    match e {
        ExprV::Group(op, cs) => {
            let first = child_toks(op, cs[0]);
            assert(children_toks(op, cs) == first + seq![op_tok(op)] + children_toks(op, cs.drop_first()));
        },
        _ => {},
    }
}

/// The tokens of a canonical query, followed by a stopping token, parse back to it.
pub proof fn lemma_parse_expr(t: Seq<(TokV, int)>, j: int, e: ExprV, level: nat)
    requires
        canon(e),
        level_of(e) <= level <= 3,
        placed(t, j, toks(e)),
        stops(tok_at(t, j + toks(e).len()), level),
    ensures
        p_expr(t, j, level) == Ok::<(ExprV, int), crate::filter_expression::FaultV>((e, j + toks(e).len())),
    decreases e, 2nat,
{
    lemma_toks_nonempty(e);
    let n = j + toks(e).len();
    match e {
        ExprV::Group(op, cs) => {
            lemma_parse_group(t, j, op, cs);
            lemma_lift(t, j, e, n, op_level(op), level);
        },
        _ => {
            lemma_parse_unary(t, j, e);
            lemma_lift(t, j, e, n, 0, level);
        },
    }
}

/// An atom or a negation parses as a unary expression.
pub proof fn lemma_parse_unary(t: Seq<(TokV, int)>, j: int, e: ExprV)
    requires
        canon(e),
        !(e is Group),
        placed(t, j, toks(e)),
        stops(tok_at(t, j + toks(e).len()), 0),
    ensures
        p_expr(t, j, 0) == Ok::<(ExprV, int), crate::filter_expression::FaultV>((e, j + toks(e).len())),
    decreases e, 1nat,
{
    assert(p_expr(t, j, 0) == p_unary(t, j));
    match e {
        ExprV::Atom(a) => {
            assert(tok_at(t, j) == toks(e)[0]);
            assert(p_unary(t, j) == p_primary(t, j));
        },
        ExprV::Not(cb) => {
            let c = *cb;
            assert(tok_at(t, j) == toks(e)[0]);
            match c {
                ExprV::Atom(a) => {
                    assert(toks(c) == seq![TokV::Atom(a)]);
                    assert(toks(e) =~= seq![TokV::Not, TokV::Atom(a)]);
                    assert(tok_at(t, j + 1) == toks(e)[1]);
                    assert(p_unary(t, j + 1) == p_primary(t, j + 1));
                    assert(p_unary(t, j + 1) == Ok::<(ExprV, int), crate::filter_expression::FaultV>((c, j + 2)));
                    assert(p_unary(t, j) == Ok::<(ExprV, int), crate::filter_expression::FaultV>((ExprV::Not(Box::new(c)), j + 2)));
                },
                _ => {
                    assert(c is Group);
                    let k = toks(c);
                    assert(toks(e) == seq![TokV::Not, TokV::Left] + k + seq![TokV::Right]);
                    assert(tok_at(t, j + 1) == toks(e)[1]);
                    assert(seq![TokV::Not, TokV::Left] + k + seq![TokV::Right] =~= seq![TokV::Not, TokV::Left] + (k + seq![TokV::Right]));
                    lemma_placed_split(t, j, seq![TokV::Not, TokV::Left], k + seq![TokV::Right]);
                    lemma_placed_split(t, j + 2, k, seq![TokV::Right]);
                    assert(tok_at(t, j + 2 + k.len()) == seq![TokV::Right][0]);
                    lemma_parse_expr(t, j + 2, c, 3);
                    assert(p_primary(t, j + 1) == Ok::<(ExprV, int), crate::filter_expression::FaultV>((c, j + 3 + k.len())));
                    assert(p_unary(t, j + 1) == p_primary(t, j + 1));
                    assert(p_unary(t, j) == Ok::<(ExprV, int), crate::filter_expression::FaultV>((ExprV::Not(Box::new(c)), j + 3 + k.len())));
                },
            }
        },
        _ => {},
    }
}

/// A child of a group parses at the level just below its parent's operator.
pub proof fn lemma_parse_child(t: Seq<(TokV, int)>, j: int, op: BoolOp, c: ExprV)
    requires
        canon(c),
        fits(op, c),
        placed(t, j, child_toks(op, c)),
        stops(tok_at(t, j + child_toks(op, c).len()), (op_level(op) - 1) as nat),
    ensures
        p_expr(t, j, (op_level(op) - 1) as nat) == Ok::<(ExprV, int), crate::filter_expression::FaultV>((c, j + child_toks(op, c).len())),
    decreases c, 3nat,
{
    let below = (op_level(op) - 1) as nat;
    let n = j + child_toks(op, c).len();
    if parenthesised(op, c) {
        let k = toks(c);
        assert(child_toks(op, c) =~= seq![TokV::Left] + (k + seq![TokV::Right]));
        lemma_placed_split(t, j, seq![TokV::Left], k + seq![TokV::Right]);
        lemma_placed_split(t, j + 1, k, seq![TokV::Right]);
        assert(tok_at(t, j) == seq![TokV::Left][0]);
        assert(tok_at(t, j + 1 + k.len()) == seq![TokV::Right][0]);
        lemma_parse_expr(t, j + 1, c, 3);
        assert(p_primary(t, j) == Ok::<(ExprV, int), crate::filter_expression::FaultV>((c, n)));
        assert(p_unary(t, j) == p_primary(t, j));
        assert(p_expr(t, j, 0) == p_unary(t, j));
        lemma_lift(t, j, c, n, 0, below);
    } else {
        match c {
            ExprV::Group(cop, _) => {
                assert(cop != op);
                assert(op_level(cop) < op_level(op));
            },
            _ => {},
        }
        lemma_parse_expr(t, j, c, below);
    }
}

/// The tokens after a group's first child: an operator before each further child.
pub open spec fn rest_toks(op: BoolOp, rest: Seq<ExprV>) -> Seq<TokV> {
    if rest.len() == 0 { Seq::empty() } else { seq![op_tok(op)] + children_toks(op, rest) }
}

pub proof fn lemma_children_toks_split(op: BoolOp, cs: Seq<ExprV>)
    requires
        cs.len() > 0,
    ensures
        children_toks(op, cs) == child_toks(op, cs[0]) + rest_toks(op, cs.drop_first()),
{
    if cs.len() == 1 {
        assert(cs.drop_first().len() == 0);
        assert(child_toks(op, cs[0]) + Seq::<TokV>::empty() =~= child_toks(op, cs[0]));
    }
}

/// The chain of further children parses onto the ones already read.
pub proof fn lemma_parse_chain(t: Seq<(TokV, int)>, n: int, op: BoolOp, acc: Seq<ExprV>, rest: Seq<ExprV>)
    requires
        acc.len() >= 1,
        canon_children(op, rest),
        placed(t, n, rest_toks(op, rest)),
        stops(tok_at(t, n + rest_toks(op, rest).len()), op_level(op)),
    ensures
        p_chain(t, n, op_level(op), acc) == chain_result(acc + rest, op_level(op), n + rest_toks(op, rest).len()),
    decreases rest, 0nat,
{
    let level = op_level(op);
    assert(level_tok(level) == op_tok(op));
    assert(level_op(level) == op);
    if rest.len() == 0 {
        assert(acc + rest =~= acc);
    } else {
        let c = rest[0];
        let more = rest.drop_first();
        lemma_children_toks_split(op, rest);
        let ct = child_toks(op, c);
        let mt = rest_toks(op, more);
        assert(rest_toks(op, rest) =~= seq![op_tok(op)] + (ct + mt));
        lemma_placed_split(t, n, seq![op_tok(op)], ct + mt);
        lemma_placed_split(t, n + 1, ct, mt);
        assert(tok_at(t, n) == seq![op_tok(op)][0]);
        assert(n < t.len());
        let k = n + 1 + ct.len();
        assert(stops(tok_at(t, k), (level - 1) as nat)) by {
            if more.len() > 0 {
                assert(mt[0] == op_tok(op));
                assert(tok_at(t, k) == mt[0]);
            } else {
                assert(mt.len() == 0);
            }
        }
        lemma_parse_child(t, n + 1, op, c);
        lemma_parse_chain(t, k, op, acc.push(c), more);
        assert(acc.push(c) + more =~= acc + rest);
    }
}

/// A canonical group parses back from its tokens.
pub proof fn lemma_parse_group(t: Seq<(TokV, int)>, j: int, op: BoolOp, cs: Seq<ExprV>)
    requires
        canon(ExprV::Group(op, cs)),
        placed(t, j, children_toks(op, cs)),
        stops(tok_at(t, j + children_toks(op, cs).len()), op_level(op)),
    ensures
        p_expr(t, j, op_level(op)) == Ok::<(ExprV, int), crate::filter_expression::FaultV>((ExprV::Group(op, cs), j + children_toks(op, cs).len())),
    decreases cs, 0nat,
{
    let level = op_level(op);
    lemma_children_toks_split(op, cs);
    assert(canon_children(op, cs));
    let c = cs[0];
    assert(canon(c) && fits(op, c));
    let ct = child_toks(op, c);
    let rt = rest_toks(op, cs.drop_first());
    lemma_placed_split(t, j, ct, rt);
    let n = j + ct.len();
    assert(stops(tok_at(t, n), (level - 1) as nat)) by {
        assert(cs.drop_first().len() > 0);
        assert(rt[0] == op_tok(op));
        assert(tok_at(t, n) == rt[0]);
    }
    lemma_toks_nonempty(c);
    lemma_parse_child(t, j, op, c);
    lemma_parse_chain(t, n, op, seq![c], cs.drop_first());
    assert(seq![c] + cs.drop_first() =~= cs);
    assert(level_op(level) == op);
}

/// Text that starts with something other than white space is not blank.
pub proof fn lemma_trim_nonempty(s: Seq<char>)
    requires
        s.len() > 0,
        !is_ws(s[0]),
    ensures
        trim(s).len() > 0,
{
    assert(trim_start(s) == s);
    lemma_trim_end_keeps_first(s);
}

proof fn lemma_trim_end_keeps_first(s: Seq<char>)
    requires
        s.len() > 0,
        !is_ws(s[0]),
    ensures
        trim_end(s).len() > 0,
    decreases s.len(),
{
    if s.len() > 1 && is_ws(s.last()) {
        assert(s.drop_last()[0] == s[0]);
        lemma_trim_end_keeps_first(s.drop_last());
    }
}

/// A canonical query's text starts with something other than white space.
pub proof fn lemma_first_char(e: ExprV)
    requires
        canon(e),
    ensures
        etext(e).len() > 0,
        !is_ws(etext(e)[0]),
    decreases e,
{
    lemma_render_canon(e);
    match e {
        ExprV::Atom(a) => {
            assert(etext(e) == atom_source(a));
            if a is Pattern {
                assert(atom_source(a)[0] == '/');
            }
        },
        ExprV::Not(c) => {
            lemma_render_canon(*c);
            assert(etext(e)[0] == '~');
        },
        ExprV::Group(op, cs) => {
            assert(canon_children(op, cs));
            let c = cs[0];
            lemma_first_char(c);
            lemma_child_text(op, c);
            lemma_render_canon(c);
            assert(with_not(core_render(c).unwrap(), denote(c).0) == render_expr(c).unwrap());
            let ch = child_text(op, c);
            lemma_children_render_canon(op, cs.drop_first());
            assert(children_render(cs, op).unwrap()[0] == ch[0]);
        },
    }
}

/// The round trip of the saved-filter language: a canonical query (or the empty one) is
/// written out by `render` without fault, and `parse` reads that text back as the same
/// query.
pub proof fn lemma_render_then_parse(e: ExprV)
    requires
        canon(e) || e == empty_and(),
    ensures
        render_spec(e) matches Ok(text) && parse_spec(text) == Ok::<ExprV, FaultV>(e),
{
    if e == empty_and() {
        assert(trim(Seq::<char>::empty()) == Seq::<char>::empty());
    } else {
        lemma_render_canon(e);
        let s = etext(e);
        assert(render_spec(e) == Ok::<Seq<char>, FaultV>(s));
        lemma_first_char(e);
        lemma_trim_nonempty(s);
        assert(s.subrange(0, s.len() as int) =~= s);
        lemma_lex_expr(s, 0, e);
        let end = lex_from(s, s.len() as int);
        assert(end == Ok::<Seq<(TokV, int)>, FaultV>(seq![(TokV::End, s.len() as int)]));
        assert(kinds(seq![(TokV::End, s.len() as int)]) =~= seq![TokV::End]);
        assert(lex_from(s, 0) is Ok);
        let t = lex_from(s, 0)->Ok_0;
        assert(kinds(t) == toks(e) + seq![TokV::End]);
        let n = toks(e).len();
        assert(kinds(t).len() == t.len());
        assert(t.len() == n + 1);
        assert forall|m: int| 0 <= m < n implies tok_at(t, 0 + m) == #[trigger] toks(e)[m] by {
            assert(kinds(t)[m] == t[m].0);
        }
        assert(tok_at(t, n as int) == TokV::End) by {
            assert(kinds(t)[n as int] == t[n as int].0);
        }
        lemma_parse_expr(t, 0, e, 3);
        assert(parse_tokens(t) == Ok::<ExprV, FaultV>(e));
    }
}

/// A plain tag character: an ASCII lower-case letter, a digit or `_`.
pub open spec fn plain_tag_char(c: char) -> bool {
    ('a' <= c <= 'z') || ('0' <= c <= '9') || c == '_'
}

/// A character a bare word runs on past: no white space, `~` or parenthesis.
pub open spec fn quiet(c: char) -> bool {
    !is_ws(c) && c != '~' && c != '(' && c != ')'
}

proof fn lemma_plain_bare_end(u: Seq<char>, j: int, n: int)
    requires
        0 <= j <= n <= u.len(),
        forall|k: int| 0 <= k < n ==> quiet(#[trigger] u[k]),
        n == u.len() || is_ws(u[n]) || u[n] == ')',
    ensures
        bare_end(u, j, 0) == n,
    decreases n - j,
{
    if j < n {
        assert(quiet(u[j]));
        lemma_plain_bare_end(u, j + 1, n);
    }
}

/// Tags made of ASCII lower-case letters, digits and `_` read back as themselves.
pub proof fn lemma_plain_tag_ok(t: Seq<char>)
    requires
        t.len() > 0,
        forall|k: int| 0 <= k < t.len() ==> plain_tag_char(#[trigger] t[k]),
    ensures
        atom_ok(AtomV::Tag(t)),
{
    let w = t;
    assert(atom_source(AtomV::Tag(t)) == t);
    assert forall|k: int| 0 <= k < w.len() implies quiet(#[trigger] w[k]) by {
        assert(plain_tag_char(w[k]));
    }
    lemma_plain_bare_end(w, 0, w.len() as int);
    assert forall|k: int| 0 <= k < w.len() implies quiet(#[trigger] w.push(' ')[k]) by {
        assert(w.push(' ')[k] == w[k]);
    }
    assert forall|k: int| 0 <= k < w.len() implies quiet(#[trigger] w.push(')')[k]) by {
        assert(w.push(')')[k] == w[k]);
    }
    assert(is_ws(w.push(' ')[w.len() as int]));
    lemma_plain_bare_end(w.push(' '), 0, w.len() as int);
    lemma_plain_bare_end(w.push(')'), 0, w.len() as int);
    assert(plain_tag_char(w[0]));
    reveal_strlit("AND");
    reveal_strlit("OR");
    reveal_strlit("XOR");
    assert(w != "AND"@) by {
        if w == "AND"@ { assert(plain_tag_char(w[0])); }
    }
    assert(w != "OR"@) by {
        if w == "OR"@ { assert(plain_tag_char(w[0])); }
    }
    assert(w != "XOR"@) by {
        if w == "XOR"@ { assert(plain_tag_char(w[0])); }
    }
    assert(!crate::filter_expression::has_uppercase(w)) by {
        assert forall|k: int| 0 <= k < w.len() implies !crate::filter_expression::upper(#[trigger] w[k]) by {
            assert(plain_tag_char(w[k]));
        }
    }
    assert(trim_start(w) == w);
    assert(trim_end(w) == w);
    assert(trim(w) == w);
    assert(crate::text::lower_all(w) =~= w) by {
        assert forall|k: int| 0 <= k < w.len() implies #[trigger] crate::text::lower(w[k]) == w[k] by {
            assert(plain_tag_char(w[k]));
        }
    }
    reveal_strlit("rating:");
    assert(crate::model::rating_metatag(w) is None) by {
        let p = crate::model::rating_prefix();
        if w.len() >= p.len() && w.take(p.len() as int) == p {
            assert(w.take(p.len() as int)[6] == w[6]);
            assert(plain_tag_char(w[6]));
            assert(p[6] == ':');
        }
    }
    assert(crate::model::underscored(w) =~= w) by {
        assert forall|k: int| 0 <= k < w.len() implies #[trigger] w[k] != ' ' by {
            assert(plain_tag_char(w[k]));
        }
    }
    assert(crate::model::tag_text(w) == w);
}

/// Rating atoms read back as themselves.
pub proof fn lemma_rating_ok(r: crate::model::RatingClass)
    ensures
        atom_ok(AtomV::Rating(r)),
{
    let a = AtomV::Rating(r);
    let w = atom_source(a);
    let p = crate::model::rating_prefix();
    let key = crate::model::rating_key(r);
    reveal_strlit("rating:");
    reveal_strlit("g");
    reveal_strlit("s");
    reveal_strlit("q");
    reveal_strlit("e");
    assert(w == p + key);
    assert(key.len() == 1);
    assert(w.len() == 8);
    assert forall|k: int| 0 <= k < w.len() implies quiet(#[trigger] w[k]) && !crate::filter_expression::upper(w[k])
        && crate::text::lower(w[k]) == w[k] && w[k] != ' ' by {
        if k < 7 {
            assert(w[k] == p[k]);
        } else {
            assert(w[k] == key[k - 7]);
        }
    }
    lemma_plain_bare_end(w, 0, w.len() as int);
    assert forall|k: int| 0 <= k < w.len() implies quiet(#[trigger] w.push(' ')[k]) by {
        assert(w.push(' ')[k] == w[k]);
    }
    assert forall|k: int| 0 <= k < w.len() implies quiet(#[trigger] w.push(')')[k]) by {
        assert(w.push(')')[k] == w[k]);
    }
    assert(is_ws(w.push(' ')[w.len() as int]));
    lemma_plain_bare_end(w.push(' '), 0, w.len() as int);
    lemma_plain_bare_end(w.push(')'), 0, w.len() as int);
    reveal_strlit("AND");
    reveal_strlit("OR");
    reveal_strlit("XOR");
    assert(w != "AND"@ && w != "OR"@ && w != "XOR"@) by {
        assert(w.len() == 8);
    }
    assert(!crate::filter_expression::has_uppercase(w));
    assert(trim_start(w) == w);
    assert(trim_end(w) == w);
    assert(crate::text::lower_all(w) =~= w);
    assert(w.take(7) =~= p);
    assert(w.skip(7) =~= key);
    assert(crate::model::rating_code(key) == Some(r)) by {
        reveal_strlit("general");
        reveal_strlit("sensitive");
        reveal_strlit("safe");
        reveal_strlit("questionable");
        reveal_strlit("explicit");
        assert("g"@.len() == 1 && "g"@[0] == 'g');
        assert("s"@.len() == 1 && "s"@[0] == 's');
        assert("q"@.len() == 1 && "q"@[0] == 'q');
        assert("e"@.len() == 1 && "e"@[0] == 'e');
        assert("general"@.len() == 7);
        assert("sensitive"@.len() == 9);
        assert("safe"@.len() == 4);
        assert("questionable"@.len() == 12);
        assert("explicit"@.len() == 8);
    }
    assert(crate::model::rating_metatag(w) == Some(r));
    assert(w[0] == 'r');
}

} // verus!
