//! The saved-filter Boolean language: `~`, `AND`, `XOR` and `OR` over tags, ratings and
//! `/regexp/` patterns, with parentheses.
use vstd::prelude::*;

use crate::model::{
    atom_parse, atom_term, child_views, denote, lemma_child_views, views, AtomV, BoolGroup,
    BoolOp, ExprV, Query, QueryAtom, QueryExpr, TagPattern, empty_and,
};
use crate::text::{
    char_uppercase, chars_of, decimal, decimal_of, is_ascii_upper, is_uppercase, is_ws, slice_chars, string_from,
    trim, trimmed, whitespace,
};

verus! {

/// Why a filter text cannot be parsed or a query cannot be written as one.
#[derive(Debug)]
pub struct Fault {
    pub column: usize,
    pub message: String,
}

/// Where a fault is and what it says.
pub struct FaultV {
    pub column: int,
    pub message: Seq<char>,
}

impl View for Fault {
    type V = FaultV;

    open spec fn view(&self) -> FaultV {
        FaultV { column: self.column as int, message: self.message@ }
    }
}

impl Fault {
    /// The column, counted in characters from 1, where the fault is.
    pub fn column(&self) -> (r: usize)
        ensures
            r == self.column,
    {
        self.column
    }

    pub fn message(&self) -> (r: String)
        ensures
            r@ == self.message@,
    {
        self.message.clone()
    }

    /// The fault as one line: `column N: message`.
    pub fn describe(&self) -> (r: String)
        ensures
            r@ == "column "@ + decimal(self.column as nat) + ": "@ + self.message@,
    {
        let mut text = String::from_str("column ");
        let digits = string_from(&decimal_of(self.column as u64));
        text.append(digits.as_str());
        text.append(": ");
        text.append(self.message.as_str());
        text
    }
}

pub open spec fn fault_at(pos: int, message: Seq<char>) -> FaultV {
    FaultV { column: pos + 1, message }
}

pub open spec fn msg_operator_or_end() -> Seq<char> {
    "expected `AND`, `XOR`, `OR`, or end of expression"@
}

pub open spec fn msg_right() -> Seq<char> {
    "expected `)`"@
}

pub open spec fn msg_operand() -> Seq<char> {
    "expected a tag, regexp, rating, `~`, or `(`"@
}

pub open spec fn msg_empty_group() -> Seq<char> {
    "an empty Boolean group cannot be represented in a saved filter"@
}

pub open spec fn msg_lower_case() -> Seq<char> {
    "tag and rating literals must be lower-case"@
}

pub open spec fn msg_unclosed_pattern() -> Seq<char> {
    "regexp literal is missing its closing `/`"@
}

pub open spec fn msg_invalid_atom(raw: Seq<char>) -> Seq<char> {
    "invalid query atom `"@ + raw + "`"@
}

fn fault(pos: usize, message: &str) -> (r: Fault)
    requires
        pos < usize::MAX,
    ensures
        r@ == fault_at(pos as int, message@),
{
    Fault { column: pos + 1, message: message.to_owned() }
}

/// The token kinds of the language.
pub enum TokV {
    Atom(AtomV),
    And,
    Or,
    Xor,
    Not,
    Left,
    Right,
    End,
}

#[derive(Debug)]
pub enum TokenKind {
    Atom(QueryAtom),
    And,
    Or,
    Xor,
    Not,
    Left,
    Right,
    End,
}

impl View for TokenKind {
    type V = TokV;

    open spec fn view(&self) -> TokV {
        match self {
            TokenKind::Atom(a) => TokV::Atom(a@),
            TokenKind::And => TokV::And,
            TokenKind::Or => TokV::Or,
            TokenKind::Xor => TokV::Xor,
            TokenKind::Not => TokV::Not,
            TokenKind::Left => TokV::Left,
            TokenKind::Right => TokV::Right,
            TokenKind::End => TokV::End,
        }
    }
}

/// A token and the character position where it starts.
#[derive(Debug)]
pub struct Token {
    pub kind: TokenKind,
    pub at: usize,
}

pub open spec fn tok_views(t: Seq<Token>) -> Seq<(TokV, int)> {
    t.map_values(|k: Token| (k.kind@, k.at as int))
}

/// The end of a bare word starting at `j` with `depth` unclosed `(`: white space, `~`, or an
/// unbalanced `)` ends it.
pub open spec fn bare_end(s: Seq<char>, j: int, depth: nat) -> int
    decreases s.len() - j,
{
    if j < 0 || j >= s.len() {
        j
    } else if is_ws(s[j]) || s[j] == '~' {
        j
    } else if s[j] == '(' {
        bare_end(s, j + 1, depth + 1)
    } else if s[j] == ')' {
        if depth == 0 { j } else { bare_end(s, j + 1, (depth - 1) as nat) }
    } else {
        bare_end(s, j + 1, depth)
    }
}

/// A `/.../` pattern body from `j` on, `\/` standing for `/`: the body and the position after
/// the closing `/`, or `None` when the text ends first.
pub open spec fn pattern_from(s: Seq<char>, j: int, acc: Seq<char>) -> Option<(Seq<char>, int)>
    decreases s.len() - j,
{
    if j < 0 || j >= s.len() {
        None
    } else if s[j] == '/' {
        Some((acc, j + 1))
    } else if s[j] == '\\' && j + 1 < s.len() && s[j + 1] == '/' {
        pattern_from(s, j + 2, acc.push('/'))
    } else {
        pattern_from(s, j + 1, acc.push(s[j]))
    }
}

/// Whether `char::is_uppercase` holds: in ASCII exactly for `A` to `Z`, elsewhere by
/// Unicode's `Uppercase` property.
pub open spec fn upper(c: char) -> bool {
    if c <= '\u{7f}' { is_ascii_upper(c) } else { char_uppercase(c) }
}

pub open spec fn has_uppercase(w: Seq<char>) -> bool {
    exists|k: int| 0 <= k < w.len() && upper(#[trigger] w[k])
}

/// The token a bare word is, or the fault it raises.
pub open spec fn word_token(w: Seq<char>, pos: int) -> Result<TokV, FaultV> {
    if w == "AND"@ {
        Ok(TokV::And)
    } else if w == "OR"@ {
        Ok(TokV::Or)
    } else if w == "XOR"@ {
        Ok(TokV::Xor)
    } else if has_uppercase(w) {
        Err(fault_at(pos, msg_lower_case()))
    } else {
        match atom_parse(w) {
            Some(a) => Ok(TokV::Atom(a)),
            None => Err(fault_at(pos, msg_invalid_atom(w))),
        }
    }
}

/// The tokens of `s` from position `i` on, each with its position, closed by `End`.
pub open spec fn lex_from(s: Seq<char>, i: int) -> Result<Seq<(TokV, int)>, FaultV>
    decreases s.len() - i,
{
    if i < 0 || i >= s.len() {
        Ok(seq![(TokV::End, s.len() as int)])
    } else if is_ws(s[i]) {
        lex_from(s, i + 1)
    } else {
        match lex_one(s, i) {
            Err(f) => Err(f),
            Ok((tok, next)) => if i < next <= s.len() {
                match lex_from(s, next) {
                    Err(f) => Err(f),
                    Ok(rest) => Ok(seq![(tok, i)] + rest),
                }
            } else {
                Err(fault_at(i, msg_invalid_atom(Seq::empty())))
            },
        }
    }
}

/// The token that starts at `i` (not white space) and where the next one may start.
pub open spec fn lex_one(s: Seq<char>, i: int) -> Result<(TokV, int), FaultV> {
    if s[i] == '~' {
        Ok((TokV::Not, i + 1))
    } else if s[i] == '(' {
        Ok((TokV::Left, i + 1))
    } else if s[i] == ')' {
        Ok((TokV::Right, i + 1))
    } else if s[i] == '/' {
        match pattern_from(s, i + 1, Seq::empty()) {
            Some((p, end)) => Ok((TokV::Atom(AtomV::Pattern(p)), end)),
            None => Err(fault_at(i, msg_unclosed_pattern())),
        }
    } else {
        let end = bare_end(s, i, 0);
        match word_token(s.subrange(i, end), i) {
            Ok(tok) => Ok((tok, end)),
            Err(f) => Err(f),
        }
    }
}

pub proof fn lemma_bare_end_bounds(s: Seq<char>, j: int, depth: nat)
    requires
        0 <= j <= s.len(),
    ensures
        j <= bare_end(s, j, depth) <= s.len(),
    decreases s.len() - j,
{
    if j < s.len() && !(is_ws(s[j]) || s[j] == '~') {
        if s[j] == '(' {
            lemma_bare_end_bounds(s, j + 1, depth + 1);
        } else if s[j] == ')' {
            if depth > 0 {
                lemma_bare_end_bounds(s, j + 1, (depth - 1) as nat);
            }
        } else {
            lemma_bare_end_bounds(s, j + 1, depth);
        }
    }
}

pub proof fn lemma_pattern_bounds(s: Seq<char>, j: int, acc: Seq<char>)
    requires
        0 <= j,
    ensures
        pattern_from(s, j, acc) matches Some((_, end)) ==> j < end <= s.len(),
    decreases s.len() - j,
{
    if j < s.len() && s[j] != '/' {
        if s[j] == '\\' && j + 1 < s.len() && s[j + 1] == '/' {
            lemma_pattern_bounds(s, j + 2, acc.push('/'));
        } else {
            lemma_pattern_bounds(s, j + 1, acc.push(s[j]));
        }
    }
}

fn bare_end_exec(s: &[char], start: usize) -> (r: usize)
    requires
        start <= s@.len(),
    ensures
        r as int == bare_end(s@, start as int, 0),
        start <= r <= s@.len(),
{
    let mut j = start;
    let mut depth: usize = 0;
    proof { lemma_bare_end_bounds(s@, start as int, 0); }
    while j < s.len()
        invariant
            start <= j <= s@.len(),
            depth <= j,
            bare_end(s@, j as int, depth as nat) == bare_end(s@, start as int, 0),
        decreases s.len() - j,
    {
        let c = s[j];
        if whitespace(c) || c == '~' {
            return j;
        }
        if c == '(' {
            depth = depth + 1;
        } else if c == ')' {
            if depth == 0 {
                return j;
            }
            depth = depth - 1;
        }
        j = j + 1;
    }
    j
}

fn pattern_exec(s: &[char], start: usize) -> (r: Option<(Vec<char>, usize)>)
    requires
        start < s@.len() < usize::MAX,
    ensures
        match pattern_from(s@, start + 1, Seq::empty()) {
            Some((p, end)) => r matches Some((q, e)) && q@ == p && e == end,
            None => r is None,
        },
{
    let mut acc: Vec<char> = Vec::new();
    let mut j = start + 1;
    while j < s.len()
        invariant
            start < j <= s@.len(),
            pattern_from(s@, j as int, acc@) == pattern_from(s@, start + 1, Seq::empty()),
        decreases s.len() - j,
    {
        let c = s[j];
        if c == '/' {
            return Some((acc, j + 1));
        }
        if c == '\\' && j + 1 < s.len() && s[j + 1] == '/' {
            acc.push('/');
            j = j + 2;
        } else {
            acc.push(c);
            j = j + 1;
        }
    }
    None
}

fn is_word(w: &[char], lit: &str) -> (r: bool)
    ensures
        r == (w@ == lit@),
{
    let l = chars_of(lit);
    if w.len() != l.len() {
        assert(w@.len() != l@.len());
        return false;
    }
    let mut k: usize = 0;
    while k < w.len()
        invariant
            k <= w@.len() == l@.len(),
            l@ == lit@,
            forall|m: int| 0 <= m < k ==> w@[m] == l@[m],
        decreases w.len() - k,
    {
        if w[k] != l[k] {
            assert(w@[k as int] != l@[k as int]);
            return false;
        }
        k = k + 1;
    }
    assert(w@ =~= l@);
    true
}

fn any_uppercase(w: &[char]) -> (r: bool)
    ensures
        r == has_uppercase(w@),
{
    let mut k: usize = 0;
    while k < w.len()
        invariant
            k <= w@.len(),
            forall|m: int| 0 <= m < k ==> !upper(#[trigger] w@[m]),
        decreases w.len() - k,
    {
        if is_uppercase(w[k]) {
            return true;
        }
        k = k + 1;
    }
    false
}

fn invalid_atom(pos: usize, w: &[char]) -> (r: Fault)
    requires
        pos < usize::MAX,
    ensures
        r@ == fault_at(pos as int, msg_invalid_atom(w@)),
{
    let mut message = String::from_str("invalid query atom `");
    message.append(string_from(w).as_str());
    message.append("`");
    Fault { column: pos + 1, message }
}

fn word_token_exec(w: &[char], pos: usize) -> (r: Result<TokenKind, Fault>)
    requires
        pos < usize::MAX,
    ensures
        match word_token(w@, pos as int) {
            Ok(t) => r matches Ok(k) && k@ == t,
            Err(f) => r matches Err(g) && g@ == f,
        },
{
    if is_word(w, "AND") {
        Ok(TokenKind::And)
    } else if is_word(w, "OR") {
        Ok(TokenKind::Or)
    } else if is_word(w, "XOR") {
        Ok(TokenKind::Xor)
    } else if any_uppercase(w) {
        Err(fault(pos, "tag and rating literals must be lower-case"))
    } else {
        match QueryAtom::parse_chars(w) {
            Some(atom) => Ok(TokenKind::Atom(atom)),
            None => Err(invalid_atom(pos, w)),
        }
    }
}

/// Splits filter text into tokens.
pub fn lex(s: &[char]) -> (r: Result<Vec<Token>, Fault>)
    requires
        s@.len() < usize::MAX,
    ensures
        match lex_from(s@, 0) {
            Ok(t) => r matches Ok(v) && tok_views(v@) == t,
            Err(f) => r matches Err(g) && g@ == f,
        },
{
    let mut tokens: Vec<Token> = Vec::new();
    let mut i: usize = 0;
    while i < s.len()
        invariant
            i <= s@.len() < usize::MAX,
            forall|rest: Seq<(TokV, int)>| lex_from(s@, i as int) == Ok::<Seq<(TokV, int)>, FaultV>(rest)
                ==> #[trigger] lex_from(s@, 0) == Ok::<Seq<(TokV, int)>, FaultV>(tok_views(tokens@) + rest),
            forall|f: FaultV| lex_from(s@, i as int) == Err::<Seq<(TokV, int)>, FaultV>(f)
                ==> #[trigger] lex_from(s@, 0) == Err::<Seq<(TokV, int)>, FaultV>(f),
        decreases s.len() - i,
    {
        let c = s[i];
        if whitespace(c) {
            i = i + 1;
            continue;
        }
        let start = i;
        let kind: TokenKind;
        if c == '~' {
            kind = TokenKind::Not;
            i = i + 1;
        } else if c == '(' {
            kind = TokenKind::Left;
            i = i + 1;
        } else if c == ')' {
            kind = TokenKind::Right;
            i = i + 1;
        } else if c == '/' {
            match pattern_exec(s, i) {
                Some((p, end)) => {
                    proof { lemma_pattern_bounds(s@, i + 1, Seq::empty()); }
                    kind = TokenKind::Atom(QueryAtom::Pattern(TagPattern::from_chars(&p)));
                    i = end;
                },
                None => {
                    return Err(fault(i, "regexp literal is missing its closing `/`"));
                },
            }
        } else {
            let end = bare_end_exec(s, i);
            let w = slice_chars(s, i, end);
            match word_token_exec(&w, i) {
                Ok(k) => {
                    if end == i {
                        return Err(invalid_atom(i, &w));
                    }
                    kind = k;
                    i = end;
                },
                Err(f) => {
                    return Err(f);
                },
            }
        }
        let ghost before = tok_views(tokens@);
        tokens.push(Token { kind, at: start });
        assert(tok_views(tokens@) =~= before.push((tokens@.last().kind@, start as int)));
        proof {
            assert forall|rest: Seq<(TokV, int)>| lex_from(s@, i as int) == Ok::<Seq<(TokV, int)>, FaultV>(rest)
                implies #[trigger] lex_from(s@, 0) == Ok::<Seq<(TokV, int)>, FaultV>(tok_views(tokens@) + rest) by {
                assert(seq![(tokens@.last().kind@, start as int)] + rest =~= seq![(tokens@.last().kind@, start as int)] + rest);
                assert(before + (seq![(tokens@.last().kind@, start as int)] + rest) =~= tok_views(tokens@) + rest);
            }
        }
    }
    let ghost before = tok_views(tokens@);
    tokens.push(Token { kind: TokenKind::End, at: s.len() });
    assert(tok_views(tokens@) =~= before + seq![(TokV::End, s@.len() as int)]);
    Ok(tokens)
}


/// A token stream as the lexer makes it: closed by `End`, positions below `usize::MAX`.
pub open spec fn wf_tokens(t: Seq<(TokV, int)>) -> bool {
    &&& t.len() > 0
    &&& t.last().0 is End
    &&& forall|k: int| 0 <= k < t.len() ==> 0 <= (#[trigger] t[k]).1 < usize::MAX
}

pub proof fn lemma_lex_wf(s: Seq<char>, i: int)
    requires
        0 <= i,
        s.len() < usize::MAX,
    ensures
        lex_from(s, i) matches Ok(t) ==> wf_tokens(t) && forall|k: int| 0 <= k < t.len() ==> (#[trigger] t[k]).1 <= s.len(),
    decreases s.len() - i,
{
    if i < s.len() {
        if is_ws(s[i]) {
            lemma_lex_wf(s, i + 1);
        } else {
            match lex_one(s, i) {
                Ok((tok, next)) => if i < next <= s.len() {
                    lemma_lex_wf(s, next);
                    match lex_from(s, next) {
                        Ok(rest) => {
                            let t = seq![(tok, i)] + rest;
                            assert forall|k: int| 0 <= k < t.len() implies 0 <= (#[trigger] t[k]).1 <= s.len() by {
                                if k > 0 {
                                    assert(t[k] == rest[k - 1]);
                                }
                            }
                            assert(t.last() == rest.last());
                        },
                        Err(_) => {},
                    }
                },
                Err(_) => {},
            }
        }
    }
}

pub open spec fn tok_at(t: Seq<(TokV, int)>, i: int) -> TokV {
    if 0 <= i < t.len() { t[i].0 } else { TokV::End }
}

pub open spec fn pos_at(t: Seq<(TokV, int)>, i: int) -> int {
    if 0 <= i < t.len() { t[i].1 } else { 0 }
}

/// The operator token of a precedence level: 1 `AND`, 2 `XOR`, 3 `OR`.
pub open spec fn level_tok(level: nat) -> TokV {
    if level == 1 { TokV::And } else if level == 2 { TokV::Xor } else { TokV::Or }
}

pub open spec fn level_op(level: nat) -> BoolOp {
    if level == 1 { BoolOp::And } else if level == 2 { BoolOp::Xor } else { BoolOp::Or }
}

pub open spec fn chain_result(acc: Seq<ExprV>, level: nat, j: int) -> Result<(ExprV, int), FaultV> {
    if acc.len() == 1 { Ok((acc[0], j)) } else { Ok((ExprV::Group(level_op(level), acc), j)) }
}

/// An expression of the given precedence level starting at token `i`: level 0 is a unary
/// expression, levels 1 to 3 chain `AND`, `XOR` and `OR` over the level below.
pub open spec fn p_expr(t: Seq<(TokV, int)>, i: int, level: nat) -> Result<(ExprV, int), FaultV>
    decreases t.len() - i, 2 * level + 2,
{
    if i < 0 || i > t.len() {
        Err(fault_at(0, msg_operand()))
    } else if level == 0 {
        p_unary(t, i)
    } else {
        match p_expr(t, i, (level - 1) as nat) {
            Err(f) => Err(f),
            Ok((first, j)) => if i < j <= t.len() {
                p_chain(t, j, level, seq![first])
            } else {
                Ok((first, j))
            },
        }
    }
}

/// Continues a chain of `level`'s operator at token `j`, having parsed `acc`.
pub open spec fn p_chain(t: Seq<(TokV, int)>, j: int, level: nat, acc: Seq<ExprV>) -> Result<(ExprV, int), FaultV>
    decreases t.len() - j, 2 * level + 3,
{
    if j < 0 || j >= t.len() || level == 0 {
        chain_result(acc, level, j)
    } else if tok_at(t, j) != level_tok(level) {
        chain_result(acc, level, j)
    } else {
        match p_expr(t, j + 1, (level - 1) as nat) {
            Err(f) => Err(f),
            Ok((x, k)) => if j < k <= t.len() {
                p_chain(t, k, level, acc.push(x))
            } else {
                Ok((x, k))
            },
        }
    }
}

pub open spec fn p_unary(t: Seq<(TokV, int)>, i: int) -> Result<(ExprV, int), FaultV>
    decreases t.len() - i, 1int,
{
    if 0 <= i < t.len() && tok_at(t, i) is Not {
        match p_unary(t, i + 1) {
            Err(f) => Err(f),
            Ok((x, k)) => Ok((ExprV::Not(Box::new(x)), k)),
        }
    } else {
        p_primary(t, i)
    }
}

pub open spec fn p_primary(t: Seq<(TokV, int)>, i: int) -> Result<(ExprV, int), FaultV>
    decreases t.len() - i, 0int,
{
    if 0 <= i < t.len() {
        match tok_at(t, i) {
            TokV::Atom(a) => Ok((ExprV::Atom(a), i + 1)),
            TokV::Left => match p_expr(t, i + 1, 3) {
                Err(f) => Err(f),
                Ok((e, k)) => if tok_at(t, k) is Right {
                    Ok((e, k + 1))
                } else {
                    Err(fault_at(pos_at(t, k), msg_right()))
                },
            },
            _ => Err(fault_at(pos_at(t, i), msg_operand())),
        }
    } else {
        Err(fault_at(pos_at(t, i), msg_operand()))
    }
}

/// A whole token stream as one expression.
pub open spec fn parse_tokens(t: Seq<(TokV, int)>) -> Result<ExprV, FaultV> {
    match p_expr(t, 0, 3) {
        Err(f) => Err(f),
        Ok((e, j)) => if tok_at(t, j) is End {
            Ok(e)
        } else {
            Err(fault_at(pos_at(t, j), msg_operator_or_end()))
        },
    }
}

/// What filter text means: blank text is the empty query.
pub open spec fn parse_spec(s: Seq<char>) -> Result<ExprV, FaultV> {
    if trim(s).len() == 0 {
        Ok(empty_and())
    } else {
        match lex_from(s, 0) {
            Err(f) => Err(f),
            Ok(t) => parse_tokens(t),
        }
    }
}

/// A recursive-descent parser over a token stream.
pub struct Parser {
    tokens: Vec<Token>,
}

impl Parser {
    pub closed spec fn toks(&self) -> Seq<(TokV, int)> {
        tok_views(self.tokens@)
    }

    pub fn new(source: &[char]) -> (r: Result<Parser, Fault>)
        requires
            source@.len() < usize::MAX,
        ensures
            match lex_from(source@, 0) {
                Ok(t) => r matches Ok(p) && p.toks() == t && wf_tokens(t),
                Err(f) => r matches Err(g) && g@ == f,
            },
    {
        proof { lemma_lex_wf(source@, 0); }
        match lex(source) {
            Ok(tokens) => Ok(Parser { tokens }),
            Err(f) => Err(f),
        }
    }

    pub fn peek(&self, at: usize) -> (r: &TokenKind)
        requires
            wf_tokens(self.toks()),
            at < self.toks().len(),
        ensures
            r@ == tok_at(self.toks(), at as int),
    {
        &self.tokens[at].kind
    }

    pub fn advance(&self, at: usize) -> (r: usize)
        requires
            wf_tokens(self.toks()),
            at < self.toks().len(),
            !(tok_at(self.toks(), at as int) is End),
        ensures
            r == at + 1,
            r < self.toks().len(),
    {
        let n = self.tokens.len();
        assert(n == self.toks().len());
        assert(at + 1 != self.toks().len());
        at + 1
    }

    fn fault(&self, at: usize, message: &str) -> (r: Fault)
        requires
            wf_tokens(self.toks()),
            at < self.toks().len(),
        ensures
            r@ == fault_at(pos_at(self.toks(), at as int), message@),
    {
        assert(0 <= self.toks()[at as int].1 < usize::MAX);
        fault(self.tokens[at].at, message)
    }

    pub fn expression(&self, at: usize) -> (r: Result<(QueryExpr, usize), Fault>)
        requires
            wf_tokens(self.toks()),
            at < self.toks().len(),
        ensures
            match p_expr(self.toks(), at as int, 3) {
                Ok((e, j)) => r matches Ok((x, k)) && x@ == e && k == j && at < k < self.toks().len(),
                Err(f) => r matches Err(g) && g@ == f,
            },
        decreases self.toks().len() - at, 10nat,
    {
        self.or(at)
    }

    pub fn or(&self, at: usize) -> (r: Result<(QueryExpr, usize), Fault>)
        requires
            wf_tokens(self.toks()),
            at < self.toks().len(),
        ensures
            match p_expr(self.toks(), at as int, 3) {
                Ok((e, j)) => r matches Ok((x, k)) && x@ == e && k == j && at < k < self.toks().len(),
                Err(f) => r matches Err(g) && g@ == f,
            },
        decreases self.toks().len() - at, 9nat,
    {
        self.level(at, 3)
    }

    pub fn xor(&self, at: usize) -> (r: Result<(QueryExpr, usize), Fault>)
        requires
            wf_tokens(self.toks()),
            at < self.toks().len(),
        ensures
            match p_expr(self.toks(), at as int, 2) {
                Ok((e, j)) => r matches Ok((x, k)) && x@ == e && k == j && at < k < self.toks().len(),
                Err(f) => r matches Err(g) && g@ == f,
            },
        decreases self.toks().len() - at, 9nat,
    {
        self.level(at, 2)
    }

    pub fn and(&self, at: usize) -> (r: Result<(QueryExpr, usize), Fault>)
        requires
            wf_tokens(self.toks()),
            at < self.toks().len(),
        ensures
            match p_expr(self.toks(), at as int, 1) {
                Ok((e, j)) => r matches Ok((x, k)) && x@ == e && k == j && at < k < self.toks().len(),
                Err(f) => r matches Err(g) && g@ == f,
            },
        decreases self.toks().len() - at, 9nat,
    {
        self.level(at, 1)
    }

    fn is_level_tok(&self, at: usize, level: u8) -> (r: bool)
        requires
            wf_tokens(self.toks()),
            at < self.toks().len(),
            1 <= level <= 3,
        ensures
            r == (tok_at(self.toks(), at as int) == level_tok(level as nat)),
    {
        match self.peek(at) {
            TokenKind::And => level == 1,
            TokenKind::Xor => level == 2,
            TokenKind::Or => level == 3,
            _ => false,
        }
    }

    /// One precedence level: an operand, then a chain of the level's operator.
    #[verifier::loop_isolation(false)]
    fn level(&self, at: usize, level: u8) -> (r: Result<(QueryExpr, usize), Fault>)
        requires
            wf_tokens(self.toks()),
            at < self.toks().len(),
            level <= 3,
        ensures
            match p_expr(self.toks(), at as int, level as nat) {
                Ok((e, j)) => r matches Ok((x, k)) && x@ == e && k == j && at < k < self.toks().len(),
                Err(f) => r matches Err(g) && g@ == f,
            },
        decreases self.toks().len() - at, 2 * level + 2,
    {
        let ghost t = self.toks();
        if level == 0 {
            return self.unary(at);
        }
        let (first, mut j) = match self.level(at, level - 1) {
            Ok(x) => x,
            Err(f) => return Err(f),
        };
        let ghost first_v = first@;
        assert(p_expr(t, at as int, level as nat) == p_chain(t, j as int, level as nat, seq![first_v]));
        if !self.is_level_tok(j, level) {
            assert(p_chain(t, j as int, level as nat, seq![first_v]) == chain_result(seq![first_v], level as nat, j as int));
            return Ok((first, j));
        }
        let mut children: Vec<QueryExpr> = vec![first];
        assert(views(children@) =~= seq![first_v]);
        while self.is_level_tok(j, level)
            invariant
                wf_tokens(t),
                t == self.toks(),
                at < j < t.len(),
                1 <= level <= 3,
                children@.len() >= 1,
                p_expr(t, at as int, level as nat) == p_chain(t, j as int, level as nat, views(children@)),
            decreases t.len() - j,
        {
            let next = self.advance(j);
            let (x, k) = match self.level(next, level - 1) {
                Ok(x) => x,
                Err(f) => return Err(f),
            };
            let ghost before = views(children@);
            children.push(x);
            assert(views(children@) =~= before.push(x@));
            j = k;
        }
        let g = BoolGroup { op: if level == 1 { BoolOp::And } else if level == 2 { BoolOp::Xor } else { BoolOp::Or }, children };
        proof { lemma_child_views(&g); }
        if g.children.len() == 1 {
            let BoolGroup { op: _, children } = g;
            let mut children = children;
            let only = children.pop().unwrap();
            return Ok((only, j));
        }
        Ok((QueryExpr::Group { group: g }, j))
    }

    #[verifier::loop_isolation(false)]
    pub fn unary(&self, at: usize) -> (r: Result<(QueryExpr, usize), Fault>)
        requires
            wf_tokens(self.toks()),
            at < self.toks().len(),
        ensures
            match p_unary(self.toks(), at as int) {
                Ok((e, j)) => r matches Ok((x, k)) && x@ == e && k == j && at < k < self.toks().len(),
                Err(f) => r matches Err(g) && g@ == f,
            },
        decreases self.toks().len() - at, 1nat,
    {
        match self.peek(at) {
            TokenKind::Not => {
                let next = self.advance(at);
                match self.unary(next) {
                    Ok((x, k)) => {
                        let e = QueryExpr::Not { child: Box::new(x) };
                        assert(e@ == ExprV::Not(Box::new(x@)));
                        Ok((e, k))
                    },
                    Err(f) => Err(f),
                }
            },
            _ => self.primary(at),
        }
    }

    pub fn primary(&self, at: usize) -> (r: Result<(QueryExpr, usize), Fault>)
        requires
            wf_tokens(self.toks()),
            at < self.toks().len(),
        ensures
            match p_primary(self.toks(), at as int) {
                Ok((e, j)) => r matches Ok((x, k)) && x@ == e && k == j && at < k < self.toks().len(),
                Err(f) => r matches Err(g) && g@ == f,
            },
        decreases self.toks().len() - at, 0nat,
    {
        match self.peek(at) {
            TokenKind::Atom(atom) => {
                let next = self.advance(at);
                Ok((QueryExpr::Atom { atom: atom.copy() }, next))
            },
            TokenKind::Left => {
                let next = self.advance(at);
                match self.expression(next) {
                    Ok((e, k)) => {
                        match self.peek(k) {
                            TokenKind::Right => {
                                let after = self.advance(k);
                                Ok((e, after))
                            },
                            _ => Err(self.fault(k, "expected `)`")),
                        }
                    },
                    Err(f) => Err(f),
                }
            },
            _ => Err(self.fault(at, "expected a tag, regexp, rating, `~`, or `(`")),
        }
    }
}

fn is_blank(s: &[char]) -> (r: bool)
    ensures
        r == (trim(s@).len() == 0),
{
    trimmed(s).len() == 0
}

/// Reads filter text. Blank text is the empty query.
pub fn parse(source: &str) -> (r: Result<Query, Fault>)
    requires
        source@.len() < usize::MAX,
    ensures
        match parse_spec(source@) {
            Ok(e) => r matches Ok(q) && q@ == e,
            Err(f) => r matches Err(g) && g@ == f,
        },
{
    let chars = chars_of(source);
    if is_blank(&chars) {
        return Ok(Query::empty());
    }
    let parser = match Parser::new(&chars) {
        Ok(p) => p,
        Err(f) => return Err(f),
    };
    let (root, end) = match parser.expression(0) {
        Ok(x) => x,
        Err(f) => return Err(f),
    };
    match parser.peek(end) {
        TokenKind::End => Ok(Query::from_root(root)),
        _ => Err(parser.fault(end, "expected `AND`, `XOR`, `OR`, or end of expression")),
    }
}


pub open spec fn op_prec(op: BoolOp) -> int {
    match op {
        BoolOp::Or => 1,
        BoolOp::Xor => 2,
        BoolOp::And => 3,
    }
}

pub open spec fn op_word(op: BoolOp) -> Seq<char> {
    match op {
        BoolOp::And => "AND"@,
        BoolOp::Or => "OR"@,
        BoolOp::Xor => "XOR"@,
    }
}

/// Every `/` preceded by a backslash.
pub open spec fn escaped(p: Seq<char>) -> Seq<char>
    decreases p.len(),
{
    if p.len() == 0 {
        Seq::empty()
    } else {
        escaped(p.drop_last()) + if p.last() == '/' { seq!['\\', '/'] } else { seq![p.last()] }
    }
}

/// An atom as filter text: patterns between slashes, the rest by their term.
pub open spec fn atom_source(a: AtomV) -> Seq<char> {
    match a {
        AtomV::Pattern(p) => seq!['/'] + escaped(p) + seq!['/'],
        _ => atom_term(a),
    }
}

/// Rendered text with its binding strength (1 `OR` .. 5 atom) and its group operator.
pub struct Rendered {
    pub text: Seq<char>,
    pub prec: int,
    pub op: Option<BoolOp>,
}

pub open spec fn with_not(r: Rendered, negated: bool) -> Rendered {
    if !negated {
        r
    } else if r.prec < 4 {
        Rendered { text: seq!['~', '('] + r.text + seq![')'], prec: 4, op: None }
    } else {
        Rendered { text: seq!['~'] + r.text, prec: 4, op: None }
    }
}

/// A child inside a parent group: parenthesised when it binds more loosely, or when an
/// exactly-one group sits inside another one.
pub open spec fn as_child(r: Rendered, parent: BoolOp) -> Seq<char> {
    if r.prec < op_prec(parent) || (parent == BoolOp::Xor && r.op == Some(BoolOp::Xor)) {
        seq!['('] + r.text + seq![')']
    } else {
        r.text
    }
}

/// The rendering of an expression's core (its leading negations aside); `None` when some
/// group in it is empty.
pub open spec fn core_render(e: ExprV) -> Option<Rendered>
    decreases e,
{
    match e {
        ExprV::Atom(a) => Some(Rendered { text: atom_source(a), prec: 5, op: None }),
        ExprV::Not(c) => core_render(*c),
        ExprV::Group(op, cs) => if cs.len() == 0 {
            None
        } else if cs.len() == 1 {
            match core_render(cs[0]) {
                Some(r) => Some(with_not(r, denote(cs[0]).0)),
                None => None,
            }
        } else {
            match children_render(cs, op) {
                Some(t) => Some(Rendered { text: t, prec: op_prec(op), op: Some(op) }),
                None => None,
            }
        },
    }
}

/// The children of a group, each as a child, joined by the operator.
pub open spec fn children_render(cs: Seq<ExprV>, parent: BoolOp) -> Option<Seq<char>>
    decreases cs,
{
    if cs.len() == 0 {
        Some(Seq::empty())
    } else {
        match core_render(cs[0]) {
            None => None,
            Some(r) => {
                let child = as_child(with_not(r, denote(cs[0]).0), parent);
                if cs.len() == 1 {
                    Some(child)
                } else {
                    match children_render(cs.drop_first(), parent) {
                        Some(rest) => Some(child + seq![' '] + op_word(parent) + seq![' '] + rest),
                        None => None,
                    }
                }
            },
        }
    }
}

pub proof fn lemma_children_render_none(cs: Seq<ExprV>, parent: BoolOp, i: int)
    requires
        0 <= i < cs.len(),
        core_render(cs[i]) is None,
    ensures
        children_render(cs, parent) is None,
    decreases cs.len(),
{
    if i > 0 {
        assert(cs.drop_first()[i - 1] == cs[i]);
        lemma_children_render_none(cs.drop_first(), parent, i - 1);
    }
}

pub open spec fn render_expr(e: ExprV) -> Option<Rendered> {
    match core_render(e) {
        Some(r) => Some(with_not(r, denote(e).0)),
        None => None,
    }
}

/// What a query looks like as filter text.
pub open spec fn render_spec(e: ExprV) -> Result<Seq<char>, FaultV> {
    if e == empty_and() {
        Ok(Seq::empty())
    } else {
        match render_expr(e) {
            Some(r) => Ok(r.text),
            None => Err(FaultV { column: 1, message: msg_empty_group() }),
        }
    }
}

fn precedence(op: BoolOp) -> (r: u8)
    ensures
        r as int == op_prec(op),
{
    match op {
        BoolOp::Or => 1,
        BoolOp::Xor => 2,
        BoolOp::And => 3,
    }
}

fn operator(op: BoolOp) -> (r: &'static str)
    ensures
        r@ == op_word(op),
{
    match op {
        BoolOp::And => "AND",
        BoolOp::Or => "OR",
        BoolOp::Xor => "XOR",
    }
}

struct Piece {
    text: Vec<char>,
    prec: u8,
    op: Option<BoolOp>,
}

impl View for Piece {
    type V = Rendered;

    closed spec fn view(&self) -> Rendered {
        Rendered { text: self.text@, prec: self.prec as int, op: self.op }
    }
}

fn push_all(out: &mut Vec<char>, more: &[char])
    ensures
        final(out)@ == old(out)@ + more@,
{
    let mut i: usize = 0;
    let ghost start = out@;
    while i < more.len()
        invariant
            i <= more@.len(),
            out@ == start + more@.take(i as int),
        decreases more.len() - i,
    {
        out.push(more[i]);
        assert(out@ =~= start + more@.take(i + 1));
        i = i + 1;
    }
    assert(more@.take(i as int) =~= more@);
}

fn render_atom(atom: &QueryAtom) -> (r: Vec<char>)
    ensures
        r@ == atom_source(atom@),
{
    match atom {
        QueryAtom::Pattern(pattern) => {
            let p = chars_of(pattern.source());
            let mut out: Vec<char> = vec!['/'];
            let mut i: usize = 0;
            while i < p.len()
                invariant
                    i <= p@.len(),
                    out@ == seq!['/'] + escaped(p@.take(i as int)),
                decreases p.len() - i,
            {
                assert(p@.take(i + 1).drop_last() =~= p@.take(i as int));
                if p[i] == '/' {
                    out.push('\\');
                    out.push('/');
                } else {
                    out.push(p[i]);
                }
                assert(out@ =~= seq!['/'] + escaped(p@.take(i + 1)));
                i = i + 1;
            }
            assert(p@.take(i as int) =~= p@);
            out.push('/');
            out
        },
        _ => chars_of(atom.term().as_str()),
    }
}

fn negate(r: Piece, negated: bool) -> (out: Piece)
    ensures
        out@ == with_not(r@, negated),
{
    if !negated {
        return r;
    }
    let mut text: Vec<char> = vec!['~'];
    if r.prec < 4 {
        text.push('(');
        push_all(&mut text, &r.text);
        text.push(')');
        assert(text@ =~= seq!['~', '('] + r.text@ + seq![')']);
    } else {
        push_all(&mut text, &r.text);
        assert(text@ =~= seq!['~'] + r.text@);
    }
    Piece { text, prec: 4, op: None }
}

fn child_text(r: Piece, parent: BoolOp) -> (out: Vec<char>)
    ensures
        out@ == as_child(r@, parent),
{
    let parenthesize = r.prec < precedence(parent) || (parent == BoolOp::Xor && r.op == Some(BoolOp::Xor));
    if parenthesize {
        let mut text: Vec<char> = vec!['('];
        push_all(&mut text, &r.text);
        text.push(')');
        assert(text@ =~= seq!['('] + r.text@ + seq![')']);
        text
    } else {
        r.text
    }
}

fn empty_group_fault() -> (r: Fault)
    ensures
        r@ == (FaultV { column: 1, message: msg_empty_group() }),
{
    Fault { column: 1, message: "an empty Boolean group cannot be represented in a saved filter".to_owned() }
}

#[verifier::loop_isolation(false)]
fn render_core(e: &QueryExpr) -> (r: Option<Piece>)
    ensures
        match core_render(e@) {
            Some(x) => r matches Some(p) && p@ == x,
            None => r is None,
        },
    decreases e,
{
    match e {
        QueryExpr::Atom { atom } => Some(Piece { text: render_atom(atom), prec: 5, op: None }),
        QueryExpr::Not { child } => render_core(child),
        QueryExpr::Group { group } => {
            proof { lemma_child_views(group); }
            let ghost cs = views(group.children@);
            let n = group.children.len();
            if n == 0 {
                return None;
            }
            if n == 1 {
                proof { assert(decreases_to!(group.children => group.children@[0])); }
                let only = &group.children[0];
                let (negated, _) = only.denote();
                return match render_core(only) {
                    Some(r) => Some(negate(r, negated)),
                    None => None,
                };
            }
            let word = chars_of(operator(group.op));
            let mut text: Vec<char> = Vec::new();
            let mut i: usize = n;
            let mut tail_ok = true;
            assert(cs.skip(n as int) =~= Seq::<ExprV>::empty());
            while i > 0
                invariant
                    i <= n == cs.len(),
                    n >= 2,
                    cs == views(group.children@),
                    word@ == op_word(group.op),
                    i < n ==> children_render(cs.skip(i as int), group.op) == Some(text@),
                decreases i,
            {
                i = i - 1;
                proof { assert(decreases_to!(group.children => group.children@[i as int])); }
                let child = &group.children[i];
                assert(cs.skip(i as int)[0] == child@);
                assert(cs.skip(i as int).drop_first() =~= cs.skip(i + 1));
                let (negated, _) = child.denote();
                let piece = match render_core(child) {
                    Some(r) => child_text(negate(r, negated), group.op),
                    None => {
                        proof { lemma_children_render_none(cs, group.op, i as int); }
                        return None;
                    },
                };
                if i + 1 < n {
                    let mut joined = piece;
                    joined.push(' ');
                    push_all(&mut joined, &word);
                    joined.push(' ');
                    push_all(&mut joined, &text);
                    text = joined;
                } else {
                    text = piece;
                }
            }
            assert(cs.skip(0) =~= cs);
            Some(Piece { text, prec: precedence(group.op), op: Some(group.op) })
        },
    }
}

/// Writes a query as filter text. The empty query is blank text; a query with an empty group
/// cannot be written.
pub fn render(query: &Query) -> (r: Result<String, Fault>)
    ensures
        match render_spec(query@) {
            Ok(t) => r matches Ok(s) && s@ == t,
            Err(f) => r matches Err(g) && g@ == f,
        },
{
    if query.is_empty() {
        return Ok(String::new());
    }
    let root = query.root();
    let (negated, _) = root.denote();
    match render_core(root) {
        Some(r) => Ok(string_from(&negate(r, negated).text)),
        None => Err(empty_group_fault()),
    }
}

}
