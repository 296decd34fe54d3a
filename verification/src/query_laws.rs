//! What the query edits promise across calls.
use vstd::prelude::*;

use crate::config::{lemma_words_of_join, lemma_words_shape};
use crate::model::{
    atom_of, atom_parse, denote, empty_and, flat_terms, group_of, parsed_root, polarity_among,
    polarity_in, polarity_of, query_text, rating_metatag, stripped, stripped_children, sub_at,
    tag_text, term_expr, term_text, terms_of, toggled_at, token_term, underscored, AtomV, BoolOp,
    ExprV, TagPolarity,
};
use crate::text::{is_ws, join, lower, lower_all, trim, trim_end, trim_start, words};

verus! {

/// A node that is not a negation of a negation: toggling it twice gives it back.
pub open spec fn single_negation(e: ExprV) -> bool {
    match e {
        ExprV::Not(c) => !(*c is Not),
        _ => true,
    }
}

/// Toggling the negation at a path twice restores the query, unless the node there is a
/// double negation (which one toggle unwraps once).
pub proof fn lemma_toggle_twice(e: ExprV, path: Seq<usize>)
    requires
        sub_at(e, path) matches Some(n) && single_negation(n),
    ensures
        toggled_at(toggled_at(e, path), path) == e,
    decreases e, path.len(),
{
    if path.len() == 0 {
    } else {
        match e {
            ExprV::Not(child) => {
                assert(group_of(e) == group_of(*child));
                assert(sub_at(e, path) == sub_at(*child, path));
                lemma_toggle_twice(*child, path);
            },
            ExprV::Group(op, gcs) => {
                let i = path[0] as int;
                let rest = path.drop_first();
                assert(sub_at(e, path) == sub_at(gcs[i], rest));
                lemma_toggle_twice(gcs[i], rest);
                let x = toggled_at(gcs[i], rest);
                let once = gcs.update(i, x);
                assert(toggled_at(e, path) == ExprV::Group(op, once));
                assert(once[i] == x);
                assert(once.update(i, toggled_at(x, rest)) =~= gcs);
            },
            ExprV::Atom(_) => {},
        }
    }
}

/// Stripping keeps whether a node is an atom, and which one.
pub proof fn lemma_stripped_atom_of(e: ExprV, a: AtomV)
    ensures
        atom_of(stripped(e, a)) == atom_of(e),
    decreases e,
{
    match e {
        ExprV::Not(child) => {
            lemma_stripped_atom_of(*child, a);
        },
        _ => {},
    }
}

/// After `remove_atom(a)` no group holds `a` any more: its polarity is gone, unless the
/// whole query is that atom.
pub proof fn lemma_stripped_has_no_polarity(e: ExprV, a: AtomV, negated: bool)
    requires
        atom_of(e) != Some(a),
    ensures
        polarity_in(stripped(e, a), a, negated) is None,
    decreases e, 1nat,
{
    match e {
        ExprV::Atom(c) => {},
        ExprV::Not(child) => {
            assert(atom_of(e) == atom_of(*child));
            lemma_stripped_has_no_polarity(*child, a, !negated);
        },
        ExprV::Group(op, cs) => {
            lemma_stripped_children_no_polarity(cs, a, negated);
        },
    }
}

pub proof fn lemma_stripped_children_no_polarity(cs: Seq<ExprV>, a: AtomV, negated: bool)
    ensures
        polarity_among(stripped_children(cs, a), a, negated) is None,
    decreases cs, 0nat,
{
    if cs.len() > 0 {
        let rest = stripped_children(cs.drop_first(), a);
        lemma_stripped_children_no_polarity(cs.drop_first(), a, negated);
        if atom_of(cs[0]) != Some(a) {
            lemma_stripped_has_no_polarity(cs[0], a, negated);
            let out = seq![stripped(cs[0], a)] + rest;
            assert(out.drop_first() =~= rest);
            assert(out[0] == stripped(cs[0], a));
        }
    }
}

/// Removing an atom twice removes no more than once.
pub proof fn lemma_strip_idempotent(e: ExprV, a: AtomV)
    ensures
        stripped(stripped(e, a), a) == stripped(e, a),
    decreases e, 1nat,
{
    match e {
        ExprV::Atom(_) => {},
        ExprV::Not(child) => {
            lemma_strip_idempotent(*child, a);
        },
        ExprV::Group(op, cs) => {
            lemma_strip_children_idempotent(cs, a);
        },
    }
}

pub proof fn lemma_strip_children_idempotent(cs: Seq<ExprV>, a: AtomV)
    ensures
        stripped_children(stripped_children(cs, a), a) == stripped_children(cs, a),
    decreases cs, 0nat,
{
    if cs.len() > 0 {
        let rest = stripped_children(cs.drop_first(), a);
        lemma_strip_children_idempotent(cs.drop_first(), a);
        if atom_of(cs[0]) != Some(a) {
            let c = stripped(cs[0], a);
            lemma_stripped_atom_of(cs[0], a);
            lemma_strip_idempotent(cs[0], a);
            let out = seq![c] + rest;
            assert(out.drop_first() =~= rest);
            assert(out[0] == c);
            assert(stripped_children(out, a) == seq![stripped(c, a)] + stripped_children(rest, a));
        }
    }
}


/// A tag as `Query::parse` leaves it: not empty, free of white space, and already in the
/// form that normalising gives, which no rating metatag has.
pub open spec fn settled_tag(t: Seq<char>) -> bool {
    &&& t.len() > 0
    &&& forall|j: int| 0 <= j < t.len() ==> !is_ws(#[trigger] t[j])
    &&& lower_all(t) == t
    &&& rating_metatag(t) is None
}

/// The terms that parsing yields: ratings and settled tags.
pub open spec fn settled_term(t: (AtomV, TagPolarity)) -> bool {
    match t.0 {
        AtomV::Tag(s) => settled_tag(s),
        AtomV::Rating(_) => true,
        AtomV::Pattern(_) => false,
    }
}

/// An included tag whose text begins with `-` or `+` would read back as an exclusion or
/// lose its sign; every other term reads back as itself.
pub open spec fn reads_back(t: (AtomV, TagPolarity)) -> bool {
    match t.0 {
        AtomV::Tag(s) => t.1 == TagPolarity::Negative || (s[0] != '-' && s[0] != '+'),
        _ => true,
    }
}

proof fn lemma_trim_plain(s: Seq<char>)
    requires
        forall|j: int| 0 <= j < s.len() ==> !is_ws(#[trigger] s[j]),
    ensures
        trim(s) == s,
{
    if s.len() > 0 {
        assert(!is_ws(s[0]));
        assert(!is_ws(s[s.len() - 1]));
    }
    assert(trim_start(s) == s);
}

proof fn lemma_lower_plain(s: Seq<char>)
    requires
        forall|j: int| 0 <= j < s.len() ==> !is_ws(#[trigger] s[j]),
    ensures
        lower_all(lower_all(s)) == lower_all(s),
        forall|j: int| 0 <= j < lower_all(s).len() ==> !is_ws(#[trigger] lower_all(s)[j]),
        underscored(lower_all(s)) == lower_all(s),
{
    let l = lower_all(s);
    assert forall|j: int| 0 <= j < l.len() implies !is_ws(#[trigger] l[j]) && l[j] != ' ' by {
        assert(!is_ws(s[j]));
        assert(l[j] == lower(s[j]));
    }
    assert(lower_all(l) =~= l);
    assert(underscored(l) =~= l);
}

/// Parsing one token that is free of white space gives a rating or a settled tag.
proof fn lemma_token_settled(tok: Seq<char>)
    requires
        forall|j: int| 0 <= j < tok.len() ==> !is_ws(#[trigger] tok[j]),
    ensures
        token_term(tok) matches Some(t) ==> settled_term(t),
{
    let body = if tok.len() > 0 && (tok[0] == '-' || tok[0] == '+') { tok.drop_first() } else { tok };
    assert forall|j: int| 0 <= j < body.len() implies !is_ws(#[trigger] body[j]) by {
        if tok.len() > 0 && (tok[0] == '-' || tok[0] == '+') {
            assert(body[j] == tok[j + 1]);
        }
    }
    lemma_trim_plain(body);
    lemma_lower_plain(body);
    let t = lower_all(body);
    assert(tag_text(body) == t);
    lemma_trim_plain(t);
    assert(rating_metatag(t) == rating_metatag(body));
}

/// Every term parsed from a text is a rating or a settled tag.
proof fn lemma_terms_settled(ws: Seq<Seq<char>>)
    requires
        forall|k: int, j: int|
            0 <= k < ws.len() && 0 <= j < ws[k].len() ==> !is_ws(#[trigger] ws[k][j]),
    ensures
        forall|k: int| 0 <= k < terms_of(ws).len() ==> settled_term(#[trigger] terms_of(ws)[k]),
    decreases ws.len(),
{
    if ws.len() > 0 {
        let front = ws.drop_last();
        assert forall|k: int, j: int|
            0 <= k < front.len() && 0 <= j < front[k].len() implies !is_ws(#[trigger] front[k][j]) by {
            assert(front[k] == ws[k]);
        }
        lemma_terms_settled(front);
        let last = ws.last();
        assert forall|j: int| 0 <= j < last.len() implies !is_ws(#[trigger] last[j]) by {
            assert(ws[ws.len() - 1][j] == last[j]);
        }
        lemma_token_settled(last);
        let rest = terms_of(front);
        match token_term(last) {
            Some(t) => {
                assert(terms_of(ws) == rest.push(t));
                assert forall|k: int| 0 <= k < terms_of(ws).len() implies settled_term(#[trigger] terms_of(ws)[k]) by {
                    if k < rest.len() {
                        assert(terms_of(ws)[k] == rest[k]);
                    }
                }
            },
            None => {
                assert(terms_of(ws) == rest);
            },
        }
    }
}

/// A settled term that reads back is what its own text parses to.
proof fn lemma_term_reads_back(t: (AtomV, TagPolarity))
    requires
        settled_term(t),
        reads_back(t),
    ensures
        token_term(term_text(t.0, t.1)) == Some(t),
        term_text(t.0, t.1).len() > 0,
        forall|j: int| 0 <= j < term_text(t.0, t.1).len() ==> !is_ws(#[trigger] term_text(t.0, t.1)[j]),
{
    reveal_strlit("rating:");
    reveal_strlit("g");
    reveal_strlit("s");
    reveal_strlit("q");
    reveal_strlit("e");
    reveal_strlit("general");
    reveal_strlit("sensitive");
    reveal_strlit("safe");
    reveal_strlit("questionable");
    reveal_strlit("explicit");
    let text = term_text(t.0, t.1);
    let atom = crate::model::atom_term(t.0);
    match t.0 {
        AtomV::Tag(s) => {
            lemma_trim_plain(s);
            assert(underscored(s) =~= s) by {
                assert forall|j: int| 0 <= j < s.len() implies s[j] != ' ' by {
                    assert(!is_ws(s[j]));
                }
            }
            assert(tag_text(s) == s);
            assert(atom_parse(s) == Some(AtomV::Tag(s)));
        },
        AtomV::Rating(r) => {
            let rt = crate::model::rating_term(r);
            assert forall|j: int| 0 <= j < rt.len() implies !is_ws(#[trigger] rt[j]) && !crate::text::is_ascii_upper(rt[j]) by {}
            lemma_trim_plain(rt);
            assert(lower_all(rt) =~= rt);
            assert(rt.take(7) =~= "rating:"@);
            assert(rt.skip(7) =~= crate::model::rating_key(r));
            assert(atom_parse(rt) == Some(AtomV::Rating(r)));
        },
        AtomV::Pattern(_) => {},
    }
    match t.1 {
        TagPolarity::Negative => {
            assert(text =~= seq!['-'] + atom);
            assert(text.drop_first() =~= atom);
            assert forall|j: int| 0 <= j < text.len() implies !is_ws(#[trigger] text[j]) by {
                if j > 0 {
                    assert(text[j] == atom[j - 1]);
                }
            }
        },
        TagPolarity::Positive => {
            assert(text == atom);
        },
    }
}

/// Terms whose texts read back give themselves back.
proof fn lemma_terms_of_texts(ts: Seq<(AtomV, TagPolarity)>)
    requires
        forall|k: int| 0 <= k < ts.len() ==> token_term(term_text(#[trigger] ts[k].0, ts[k].1)) == Some(ts[k]),
    ensures
        terms_of(ts.map_values(|t: (AtomV, TagPolarity)| term_text(t.0, t.1))) == ts,
    decreases ts.len(),
{
    let texts = ts.map_values(|t: (AtomV, TagPolarity)| term_text(t.0, t.1));
    if ts.len() > 0 {
        let front = ts.drop_last();
        assert forall|k: int| 0 <= k < front.len() implies token_term(term_text(#[trigger] front[k].0, front[k].1)) == Some(front[k]) by {
            assert(front[k] == ts[k]);
        }
        lemma_terms_of_texts(front);
        assert(texts.drop_last() =~= front.map_values(|t: (AtomV, TagPolarity)| term_text(t.0, t.1)));
        assert(texts.last() == term_text(ts.last().0, ts.last().1));
        assert(token_term(term_text(ts[ts.len() - 1].0, ts[ts.len() - 1].1)) == Some(ts[ts.len() - 1]));
        assert(front.push(ts.last()) =~= ts);
    } else {
        assert(texts.len() == 0);
    }
}

/// Writing out a parsed query and parsing that text again gives the same query, provided
/// no included tag begins with `-` or `+`.
pub proof fn lemma_parse_text_parse(raw: Seq<char>)
    requires
        forall|k: int| 0 <= k < terms_of(words(raw)).len() ==> reads_back(#[trigger] terms_of(words(raw))[k]),
    ensures
        parsed_root(query_text(parsed_root(raw))) == parsed_root(raw),
{
    let ts = terms_of(words(raw));
    let kids = ts.map_values(|t: (AtomV, TagPolarity)| term_expr(t.0, t.1));
    let root = parsed_root(raw);
    assert(root == ExprV::Group(BoolOp::And, kids));
    lemma_words_shape(raw);
    lemma_terms_settled(words(raw));
    if ts.len() == 0 {
        assert(kids =~= Seq::<ExprV>::empty());
        assert(root == empty_and());
        assert(words(Seq::<char>::empty()) =~= Seq::<Seq<char>>::empty());
        assert(terms_of(Seq::<Seq<char>>::empty()) =~= Seq::<(AtomV, TagPolarity)>::empty());
        assert(Seq::<(AtomV, TagPolarity)>::empty().map_values(|t: (AtomV, TagPolarity)| term_expr(t.0, t.1)) =~= Seq::<ExprV>::empty());
        assert(query_text(root) == Seq::<char>::empty());
        assert(parsed_root(Seq::<char>::empty()) == root);
    } else {
        assert(kids.len() > 0);
        assert(root != empty_and()) by {
            if root == empty_and() {
                assert(kids.len() == 0);
            }
        }
        reveal_with_fuel(denote, 2);
        assert forall|i: int| 0 <= i < kids.len() implies (#[trigger] atom_of(kids[i])) is Some by {
            assert(kids[i] == term_expr(ts[i].0, ts[i].1));
        }
        let flat = Seq::new(kids.len(), |i: int| (atom_of(kids[i]).unwrap(), polarity_of(denote(kids[i]).0)));
        assert(flat =~= ts) by {
            assert forall|i: int| 0 <= i < kids.len() implies flat[i] == ts[i] by {
                assert(kids[i] == term_expr(ts[i].0, ts[i].1));
            }
        }
        assert(flat_terms(root) == Some(ts));
        let texts = ts.map_values(|t: (AtomV, TagPolarity)| term_text(t.0, t.1));
        assert(query_text(root) == join(texts, ' '));
        assert forall|k: int| 0 <= k < ts.len() implies token_term(term_text(#[trigger] ts[k].0, ts[k].1)) == Some(ts[k]) by {
            lemma_term_reads_back(ts[k]);
        }
        assert forall|k: int| 0 <= k < texts.len() implies (#[trigger] texts[k]).len() > 0 by {
            lemma_term_reads_back(ts[k]);
        }
        assert forall|k: int, j: int|
            0 <= k < texts.len() && 0 <= j < texts[k].len() implies !is_ws(#[trigger] texts[k][j]) by {
            lemma_term_reads_back(ts[k]);
        }
        lemma_words_of_join(texts);
        lemma_terms_of_texts(ts);
        assert(words(query_text(root)) == texts);
        assert(terms_of(words(query_text(root))) == ts);
    }
}

/// A token that opens with `+` and then a sign.
pub open spec fn signed_plus(tok: Seq<char>) -> bool {
    tok.len() >= 2 && tok[0] == '+' && (tok[1] == '+' || tok[1] == '-')
}

/// No white-space-separated word of the text opens with `++` or `+-`.
pub open spec fn no_signed_plus(raw: Seq<char>) -> bool {
    forall|k: int| 0 <= k < words(raw).len() ==> !signed_plus(#[trigger] words(raw)[k])
}

/// A white-space-free token that does not open with `++` or `+-` stands for a term that
/// reads back.
proof fn lemma_token_reads_back(tok: Seq<char>)
    requires
        forall|j: int| 0 <= j < tok.len() ==> !is_ws(#[trigger] tok[j]),
        !signed_plus(tok),
    ensures
        token_term(tok) matches Some(t) ==> reads_back(t),
{
    if !(tok.len() > 0 && tok[0] == '-') {
        let body = if tok.len() > 0 && tok[0] == '+' { tok.drop_first() } else { tok };
        assert forall|j: int| 0 <= j < body.len() implies !is_ws(#[trigger] body[j]) by {
            if tok.len() > 0 && tok[0] == '+' {
                assert(body[j] == tok[j + 1]);
            }
        }
        lemma_trim_plain(body);
        lemma_lower_plain(body);
        let low = lower_all(body);
        assert(tag_text(body) == low);
        if body.len() > 0 {
            if tok[0] == '+' {
                assert(body[0] == tok[1]);
            }
            assert(body[0] != '-' && body[0] != '+');
            assert(low[0] == lower(body[0]));
            assert(low[0] != '-' && low[0] != '+');
        }
    }
}

/// The terms of white-space-free words none of which opens with `++` or `+-` all read back.
proof fn lemma_terms_read_back(ws: Seq<Seq<char>>)
    requires
        forall|k: int, j: int|
            0 <= k < ws.len() && 0 <= j < ws[k].len() ==> !is_ws(#[trigger] ws[k][j]),
        forall|k: int| 0 <= k < ws.len() ==> !signed_plus(#[trigger] ws[k]),
    ensures
        forall|k: int| 0 <= k < terms_of(ws).len() ==> reads_back(#[trigger] terms_of(ws)[k]),
    decreases ws.len(),
{
    if ws.len() > 0 {
        let front = ws.drop_last();
        assert forall|k: int, j: int|
            0 <= k < front.len() && 0 <= j < front[k].len() implies !is_ws(#[trigger] front[k][j]) by {
            assert(front[k] == ws[k]);
        }
        assert forall|k: int| 0 <= k < front.len() implies !signed_plus(#[trigger] front[k]) by {
            assert(front[k] == ws[k]);
        }
        lemma_terms_read_back(front);
        let last = ws.last();
        assert forall|j: int| 0 <= j < last.len() implies !is_ws(#[trigger] last[j]) by {
            assert(ws[ws.len() - 1][j] == last[j]);
        }
        assert(!signed_plus(ws[ws.len() - 1]));
        lemma_token_reads_back(last);
        let rest = terms_of(front);
        match token_term(last) {
            Some(t) => {
                assert(terms_of(ws) == rest.push(t));
                assert forall|k: int| 0 <= k < terms_of(ws).len() implies reads_back(#[trigger] terms_of(ws)[k]) by {
                    if k < rest.len() {
                        assert(terms_of(ws)[k] == rest[k]);
                    }
                }
            },
            None => {
                assert(terms_of(ws) == rest);
            },
        }
    }
}

/// Writing out a parsed query and parsing that text again gives the same query, provided
/// no word of the typed text opens with `++` or `+-` (such a word is an included tag that
/// begins with a sign, which the written text would read as another term).
pub proof fn lemma_typed_query_round_trip(raw: Seq<char>)
    requires
        no_signed_plus(raw),
    ensures
        parsed_root(query_text(parsed_root(raw))) == parsed_root(raw),
{
    lemma_words_shape(raw);
    let ws = words(raw);
    assert forall|k: int| 0 <= k < ws.len() implies !signed_plus(#[trigger] ws[k]) by {}
    lemma_terms_read_back(ws);
    lemma_parse_text_parse(raw);
}

proof fn lemma_trim_start_front(s: Seq<char>)
    ensures
        trim_start(s).len() > 0 ==> !is_ws(trim_start(s)[0]),
        trim_start(s).len() <= s.len(),
    decreases s.len(),
{
    if s.len() > 0 && is_ws(s[0]) {
        lemma_trim_start_front(s.drop_first());
    }
}

proof fn lemma_trim_end_prefix(s: Seq<char>)
    ensures
        trim_end(s).len() <= s.len(),
        forall|i: int| 0 <= i < trim_end(s).len() ==> #[trigger] trim_end(s)[i] == s[i],
        trim_end(s).len() > 0 ==> !is_ws(trim_end(s).last()),
    decreases s.len(),
{
    if s.len() > 0 && is_ws(s.last()) {
        lemma_trim_end_prefix(s.drop_last());
        assert forall|i: int| 0 <= i < trim_end(s).len() implies #[trigger] trim_end(s)[i] == s[i] by {
            assert(trim_end(s)[i] == s.drop_last()[i]);
        }
    }
}

/// Text that is empty or neither begins nor ends with white space is its own trim.
proof fn lemma_trim_kept(s: Seq<char>)
    requires
        s.len() > 0 ==> !is_ws(s[0]) && !is_ws(s.last()),
    ensures
        trim(s) == s,
{
    assert(trim_start(s) == s);
}

/// Normalising a tag's text a second time changes nothing, so `Tag::forge` of a tag's own
/// text gives that tag back.
pub proof fn lemma_tag_text_idempotent(raw: Seq<char>)
    ensures
        tag_text(tag_text(raw)) == tag_text(raw),
{
    let st = trim_start(raw);
    let t = trim(raw);
    lemma_trim_start_front(raw);
    lemma_trim_end_prefix(st);
    if t.len() > 0 {
        assert(t[0] == st[0]);
    }
    let l = lower_all(t);
    let u = underscored(l);
    assert(u == tag_text(raw));
    assert forall|i: int| 0 <= i < u.len() implies lower(#[trigger] u[i]) == u[i] && u[i] != ' ' by {
        assert(l[i] == lower(t[i]));
    }
    if u.len() > 0 {
        assert(!is_ws(t[0]) && !is_ws(t.last()));
        assert(l[0] == lower(t[0]) && l[l.len() - 1] == lower(t[t.len() - 1]));
        assert(!is_ws(u[0]));
        assert(!is_ws(u.last()));
    }
    lemma_trim_kept(u);
    assert(lower_all(u) =~= u);
    assert(underscored(u) =~= u);
}

} // verus!
