//! Posts, tags, ratings and the Boolean query tree.
use vstd::prelude::*;

use crate::text::{
    chars_of, compare_chars, join, lemma_seq_lt_asymmetric, lemma_seq_lt_irreflexive,
    lemma_seq_lt_total, lemma_seq_lt_transitive, seq_lt, join_with, slice_chars, split_words, words, is_ws, lower_all, string_from, to_lower, trim, trimmed, Order,
};

verus! {

/// A Danbooru post identifier.
#[derive(Clone, Copy, Debug, PartialEq, Eq, Structural, Hash, PartialOrd, Ord)]
pub struct PostId(pub u32);

/// A normalised tag: trimmed, ASCII lower-case, spaces as underscores.
#[derive(Debug)]
pub struct Tag(String);

impl View for Tag {
    type V = Seq<char>;

    closed spec fn view(&self) -> Seq<char> {
        self.0@
    }
}

/// Spaces become underscores.
pub open spec fn underscored(s: Seq<char>) -> Seq<char> {
    Seq::new(s.len(), |i: int| if s[i] == ' ' { '_' } else { s[i] })
}

/// The tag text that `Tag::forge` makes of raw input.
pub open spec fn tag_text(raw: Seq<char>) -> Seq<char> {
    underscored(lower_all(trim(raw)))
}

pub fn lowercased(s: &[char]) -> (r: Vec<char>)
    ensures
        r@ == lower_all(s@),
{
    let mut out: Vec<char> = Vec::new();
    let mut i: usize = 0;
    while i < s.len()
        invariant
            i <= s@.len(),
            out@ =~= lower_all(s@.take(i as int)),
        decreases s.len() - i,
    {
        out.push(to_lower(s[i]));
        i = i + 1;
    }
    assert(s@.take(s@.len() as int) =~= s@);
    out
}

pub fn underscore_spaces(s: &[char]) -> (r: Vec<char>)
    ensures
        r@ == underscored(s@),
{
    let mut out: Vec<char> = Vec::new();
    let mut i: usize = 0;
    while i < s.len()
        invariant
            i <= s@.len(),
            out@ =~= underscored(s@.take(i as int)),
        decreases s.len() - i,
    {
        out.push(if s[i] == ' ' { '_' } else { s[i] });
        i = i + 1;
    }
    assert(s@.take(s@.len() as int) =~= s@);
    out
}

pub fn same_chars(a: &[char], b: &[char]) -> (r: bool)
    ensures
        r == (a@ == b@),
{
    match compare_chars(a, b) {
        Order::Equal => true,
        _ => false,
    }
}

impl Tag {
    pub fn forge(raw: &str) -> (r: Option<Tag>)
        ensures
            r matches Some(t) ==> t@ == tag_text(raw@) && t@.len() > 0,
            r is None <==> tag_text(raw@).len() == 0,
    {
        Self::forge_chars(&chars_of(raw))
    }

    pub fn forge_chars(raw: &[char]) -> (r: Option<Tag>)
        ensures
            r matches Some(t) ==> t@ == tag_text(raw@) && t@.len() > 0,
            r is None <==> tag_text(raw@).len() == 0,
    {
        let text = underscore_spaces(&lowercased(&trimmed(raw)));
        if text.len() == 0 {
            None
        } else {
            Some(Tag(string_from(&text)))
        }
    }

    pub fn as_str(&self) -> (r: &str)
        ensures
            r@ == self@,
    {
        self.0.as_str()
    }

    pub fn blocks_index(&self) -> (r: bool)
        ensures
            r == (self@ == "animated"@),
    {
        let text = chars_of(self.0.as_str());
        let animated = chars_of("animated");
        same_chars(&text, &animated)
    }

    pub fn copy(&self) -> (r: Tag)
        ensures
            r@ == self@,
    {
        Tag(self.0.clone())
    }
}

/// Gallery orderings.
#[derive(Clone, Copy, Debug, PartialEq, Eq, Structural)]
pub enum Sort {
    Newest,
    Score,
    Favorites,
}

pub open spec fn sort_label(sort: Sort) -> Seq<char> {
    match sort {
        Sort::Newest => "newest"@,
        Sort::Score => "score"@,
        Sort::Favorites => "favorites"@,
    }
}

pub open spec fn sort_order_term(sort: Sort) -> Seq<char> {
    match sort {
        Sort::Newest => "order:id_desc"@,
        Sort::Score => "order:score"@,
        Sort::Favorites => "order:favcount"@,
    }
}

/// How Danbooru reads an `order:` metatag: the field it sorts by, and whether highest
/// first. `id` runs oldest first unless `_desc` follows; `score` and `favcount` run
/// highest first unless `_asc` follows.
pub open spec fn danbooru_order_reading(t: Seq<char>) -> Option<(Seq<char>, bool)> {
    if t == "order:id"@ || t == "order:id_asc"@ {
        Some(("id"@, false))
    } else if t == "order:id_desc"@ {
        Some(("id"@, true))
    } else if t == "order:score"@ || t == "order:score_desc"@ {
        Some(("score"@, true))
    } else if t == "order:score_asc"@ {
        Some(("score"@, false))
    } else if t == "order:favcount"@ || t == "order:favcount_desc"@ {
        Some(("favcount"@, true))
    } else if t == "order:favcount_asc"@ {
        Some(("favcount"@, false))
    } else {
        None
    }
}

/// The post field a gallery ordering ranks by, highest first: the newest posts have the
/// highest ids.
pub open spec fn gallery_field(sort: Sort) -> Seq<char> {
    match sort {
        Sort::Newest => "id"@,
        Sort::Score => "score"@,
        Sort::Favorites => "favcount"@,
    }
}

/// The order a remote seed asks Danbooru for is the gallery's own: the same field,
/// highest first, for every sort. Newest thus asks for descending ids, as the crawl does.
pub proof fn lemma_seed_order_is_gallery_order(sort: Sort)
    ensures
        danbooru_order_reading(sort_order_term(sort)) == Some((gallery_field(sort), true)),
{
    reveal_strlit("order:id");
    reveal_strlit("order:id_asc");
    reveal_strlit("order:id_desc");
    reveal_strlit("order:score");
    reveal_strlit("order:score_desc");
    reveal_strlit("order:score_asc");
    reveal_strlit("order:favcount");
    reveal_strlit("order:favcount_desc");
    reveal_strlit("order:favcount_asc");
    reveal_strlit("id");
    reveal_strlit("score");
    reveal_strlit("favcount");
    assert("order:id"@.len() == 8 && "order:id_asc"@.len() == 12 && "order:id_desc"@.len() == 13);
    assert("order:score"@.len() == 11 && "order:score_desc"@.len() == 16 && "order:score_asc"@.len() == 15);
    assert("order:favcount"@.len() == 14 && "order:favcount_desc"@.len() == 19 && "order:favcount_asc"@.len() == 18);
}

impl Sort {
    pub fn label(self) -> (r: &'static str)
        ensures
            r@ == sort_label(self),
    {
        match self {
            Sort::Newest => "newest",
            Sort::Score => "score",
            Sort::Favorites => "favorites",
        }
    }

    pub fn danbooru_order(self) -> (r: &'static str)
        ensures
            r@ == sort_order_term(self),
    {
        match self {
            Sort::Newest => "order:id_desc",
            Sort::Score => "order:score",
            Sort::Favorites => "order:favcount",
        }
    }
}

/// The four Danbooru rating classes, in their natural order.
#[derive(Clone, Copy, Debug, PartialEq, Eq, Structural, Hash, PartialOrd, Ord)]
pub enum RatingClass {
    General,
    Sensitive,
    Questionable,
    Explicit,
}

pub open spec fn rating_rank(r: RatingClass) -> int {
    match r {
        RatingClass::General => 0,
        RatingClass::Sensitive => 1,
        RatingClass::Questionable => 2,
        RatingClass::Explicit => 3,
    }
}

/// The rating codes and names that Danbooru accepts.
pub open spec fn rating_code(s: Seq<char>) -> Option<RatingClass> {
    if s == "g"@ || s == "general"@ {
        Some(RatingClass::General)
    } else if s == "s"@ || s == "sensitive"@ || s == "safe"@ {
        Some(RatingClass::Sensitive)
    } else if s == "q"@ || s == "questionable"@ {
        Some(RatingClass::Questionable)
    } else if s == "e"@ || s == "explicit"@ {
        Some(RatingClass::Explicit)
    } else {
        None
    }
}

/// Danbooru's rating words: each long name means the same class as its one-letter code
/// (`safe` being the older name of `sensitive`), and every accepted word opens with the
/// letter of the class it names.
pub proof fn lemma_rating_words(s: Seq<char>)
    ensures
        rating_code("g"@) == Some(RatingClass::General),
        rating_code("general"@) == Some(RatingClass::General),
        rating_code("s"@) == Some(RatingClass::Sensitive),
        rating_code("sensitive"@) == Some(RatingClass::Sensitive),
        rating_code("safe"@) == Some(RatingClass::Sensitive),
        rating_code("q"@) == Some(RatingClass::Questionable),
        rating_code("questionable"@) == Some(RatingClass::Questionable),
        rating_code("e"@) == Some(RatingClass::Explicit),
        rating_code("explicit"@) == Some(RatingClass::Explicit),
        forall|r: RatingClass| rating_code(#[trigger] rating_key(r)) == Some(r) && rating_key(r).len() == 1,
        rating_code(s) matches Some(r) ==> s.len() > 0 && s[0] == (match r {
            RatingClass::General => 'g',
            RatingClass::Sensitive => 's',
            RatingClass::Questionable => 'q',
            RatingClass::Explicit => 'e',
        }),
{
    reveal_strlit("g");
    reveal_strlit("general");
    reveal_strlit("s");
    reveal_strlit("sensitive");
    reveal_strlit("safe");
    reveal_strlit("q");
    reveal_strlit("questionable");
    reveal_strlit("e");
    reveal_strlit("explicit");
    assert("g"@[0] == 'g' && "general"@[0] == 'g');
    assert("s"@[0] == 's' && "sensitive"@[0] == 's' && "safe"@[0] == 's');
    assert("q"@[0] == 'q' && "questionable"@[0] == 'q');
    assert("e"@[0] == 'e' && "explicit"@[0] == 'e');
}

pub open spec fn rating_key(r: RatingClass) -> Seq<char> {
    match r {
        RatingClass::General => "g"@,
        RatingClass::Sensitive => "s"@,
        RatingClass::Questionable => "q"@,
        RatingClass::Explicit => "e"@,
    }
}

pub open spec fn rating_prefix() -> Seq<char> {
    "rating:"@
}

/// A `rating:<code>` metatag, after trimming and ASCII lower-casing.
pub open spec fn rating_metatag(raw: Seq<char>) -> Option<RatingClass> {
    let normalized = lower_all(trim(raw));
    if normalized.len() >= rating_prefix().len() && normalized.take(rating_prefix().len() as int)
        == rating_prefix() {
        rating_code(normalized.skip(rating_prefix().len() as int))
    } else {
        None
    }
}

pub open spec fn rating_term(r: RatingClass) -> Seq<char> {
    rating_prefix() + rating_key(r)
}

fn is_literal(s: &[char], lit: &str) -> (r: bool)
    ensures
        r == (s@ == lit@),
{
    let l = chars_of(lit);
    same_chars(s, &l)
}

impl RatingClass {
    pub fn parse_metatag(raw: &str) -> (r: Option<RatingClass>)
        ensures
            r == rating_metatag(raw@),
    {
        Self::metatag_chars(&chars_of(raw))
    }

    pub fn metatag_chars(raw: &[char]) -> (r: Option<RatingClass>)
        ensures
            r == rating_metatag(raw@),
    {
        let normalized = lowercased(&trimmed(raw));
        let prefix = chars_of("rating:");
        if normalized.len() < prefix.len() {
            return None;
        }
        let head = slice_chars(&normalized, 0, prefix.len());
        let body = slice_chars(&normalized, prefix.len(), normalized.len());
        assert(normalized@.subrange(0, prefix@.len() as int) =~= normalized@.take(prefix@.len() as int));
        assert(normalized@.subrange(prefix@.len() as int, normalized@.len() as int) =~= normalized@.skip(prefix@.len() as int));
        if !same_chars(&head, &prefix) {
            return None;
        }
        Self::code_of(&body)
    }

    fn code_of(raw: &[char]) -> (r: Option<RatingClass>)
        ensures
            r == rating_code(raw@),
    {
        if is_literal(raw, "g") || is_literal(raw, "general") {
            Some(RatingClass::General)
        } else if is_literal(raw, "s") || is_literal(raw, "sensitive") || is_literal(raw, "safe") {
            Some(RatingClass::Sensitive)
        } else if is_literal(raw, "q") || is_literal(raw, "questionable") {
            Some(RatingClass::Questionable)
        } else if is_literal(raw, "e") || is_literal(raw, "explicit") {
            Some(RatingClass::Explicit)
        } else {
            None
        }
    }

    pub fn parse_code(raw: &str) -> (r: Option<RatingClass>)
        ensures
            r == rating_code(raw@),
    {
        Self::code_of(&chars_of(raw))
    }

    pub fn key(self) -> (r: &'static str)
        ensures
            r@ == rating_key(self),
    {
        match self {
            RatingClass::General => "g",
            RatingClass::Sensitive => "s",
            RatingClass::Questionable => "q",
            RatingClass::Explicit => "e",
        }
    }

    pub fn term(self) -> (r: String)
        ensures
            r@ == rating_term(self),
    {
        let mut text = String::from_str("rating:");
        text.append(self.key());
        text
    }
}


/// A regular-expression tag pattern, carried by its source text.
#[derive(Debug)]
pub struct TagPattern(String);

impl View for TagPattern {
    type V = Seq<char>;

    closed spec fn view(&self) -> Seq<char> {
        self.0@
    }
}

impl TagPattern {
    pub fn forge(source: &str) -> (r: TagPattern)
        ensures
            r@ == source@,
    {
        TagPattern(source.to_owned())
    }

    pub fn from_chars(source: &[char]) -> (r: TagPattern)
        ensures
            r@ == source@,
    {
        TagPattern(string_from(source))
    }

    pub fn source(&self) -> (r: &str)
        ensures
            r@ == self@,
    {
        self.0.as_str()
    }

    pub fn copy(&self) -> (r: TagPattern)
        ensures
            r@ == self@,
    {
        TagPattern(self.0.clone())
    }
}

/// The mathematical value of a query atom.
pub enum AtomV {
    Tag(Seq<char>),
    Rating(RatingClass),
    Pattern(Seq<char>),
}

/// The mathematical value of a query expression.
pub enum ExprV {
    Atom(AtomV),
    Not(Box<ExprV>),
    Group(BoolOp, Seq<ExprV>),
}

/// A query predicate on one post: a tag, a rating class or a tag pattern.
#[derive(Debug)]
pub enum QueryAtom {
    Tag(Tag),
    Rating(RatingClass),
    Pattern(TagPattern),
}

impl View for QueryAtom {
    type V = AtomV;

    open spec fn view(&self) -> AtomV {
        match self {
            QueryAtom::Tag(t) => AtomV::Tag(t@),
            QueryAtom::Rating(r) => AtomV::Rating(*r),
            QueryAtom::Pattern(p) => AtomV::Pattern(p@),
        }
    }
}

/// `QueryAtom::parse`: a rating metatag first, otherwise a tag.
pub open spec fn atom_parse(raw: Seq<char>) -> Option<AtomV> {
    match rating_metatag(raw) {
        Some(r) => Some(AtomV::Rating(r)),
        None => if tag_text(raw).len() > 0 {
            Some(AtomV::Tag(tag_text(raw)))
        } else {
            None
        },
    }
}

/// The search-term text of an atom; a pattern is shown by its source.
pub open spec fn atom_term(a: AtomV) -> Seq<char> {
    match a {
        AtomV::Tag(t) => t,
        AtomV::Rating(r) => rating_term(r),
        AtomV::Pattern(p) => p,
    }
}

impl QueryAtom {
    pub fn parse(raw: &str) -> (r: Option<QueryAtom>)
        ensures
            r matches Some(a) ==> atom_parse(raw@) == Some(a@),
            r is None <==> atom_parse(raw@) is None,
    {
        Self::parse_chars(&chars_of(raw))
    }

    pub fn parse_chars(raw: &[char]) -> (r: Option<QueryAtom>)
        ensures
            r matches Some(a) ==> atom_parse(raw@) == Some(a@),
            r is None <==> atom_parse(raw@) is None,
    {
        match RatingClass::metatag_chars(raw) {
            Some(rating) => Some(QueryAtom::Rating(rating)),
            None => match Tag::forge_chars(raw) {
                Some(tag) => Some(QueryAtom::Tag(tag)),
                None => None,
            },
        }
    }

    pub fn term(&self) -> (r: String)
        ensures
            r@ == atom_term(self@),
    {
        match self {
            QueryAtom::Tag(tag) => tag.as_str().to_owned(),
            QueryAtom::Rating(rating) => rating.term(),
            QueryAtom::Pattern(pattern) => pattern.source().to_owned(),
        }
    }

    pub fn tag_term(&self) -> (r: Option<String>)
        ensures
            match self@ {
                AtomV::Tag(t) => r matches Some(s) && s@ == t,
                _ => r is None,
            },
    {
        match self {
            QueryAtom::Tag(tag) => Some(tag.as_str().to_owned()),
            _ => None,
        }
    }

    pub fn copy(&self) -> (r: QueryAtom)
        ensures
            r@ == self@,
    {
        match self {
            QueryAtom::Tag(tag) => QueryAtom::Tag(tag.copy()),
            QueryAtom::Rating(rating) => QueryAtom::Rating(*rating),
            QueryAtom::Pattern(pattern) => QueryAtom::Pattern(pattern.copy()),
        }
    }

    /// Whether two atoms denote the same predicate.
    pub fn same(&self, other: &QueryAtom) -> (r: bool)
        ensures
            r == (self@ == other@),
    {
        match (self, other) {
            (QueryAtom::Tag(a), QueryAtom::Tag(b)) => same_chars(&chars_of(a.as_str()), &chars_of(b.as_str())),
            (QueryAtom::Rating(a), QueryAtom::Rating(b)) => *a == *b,
            (QueryAtom::Pattern(a), QueryAtom::Pattern(b)) => same_chars(&chars_of(a.source()), &chars_of(b.source())),
            _ => false,
        }
    }
}

/// How a group combines its children: all, any, or exactly one of them.
#[derive(Clone, Copy, Debug, PartialEq, Eq, Structural)]
pub enum BoolOp {
    And,
    Or,
    Xor,
}

pub open spec fn op_label(op: BoolOp) -> Seq<char> {
    match op {
        BoolOp::And => "AND"@,
        BoolOp::Or => "OR"@,
        BoolOp::Xor => "XOR"@,
    }
}

impl BoolOp {
    pub fn label(self) -> (r: &'static str)
        ensures
            r@ == op_label(self),
    {
        match self {
            BoolOp::And => "AND",
            BoolOp::Or => "OR",
            BoolOp::Xor => "XOR",
        }
    }
}

/// Whether a term includes or excludes its atom.
#[derive(Clone, Copy, Debug, PartialEq, Eq, Structural)]
pub enum TagPolarity {
    Positive,
    Negative,
}

/// A node of the Boolean query tree.
#[derive(Debug)]
pub enum QueryExpr {
    Atom { atom: QueryAtom },
    Not { child: Box<QueryExpr> },
    Group { group: BoolGroup },
}

/// A Boolean operator over an ordered list of children.
#[derive(Debug)]
pub struct BoolGroup {
    pub op: BoolOp,
    pub children: Vec<QueryExpr>,
}

pub open spec fn expr_view(e: &QueryExpr) -> ExprV
    decreases e,
{
    match e {
        QueryExpr::Atom { atom } => ExprV::Atom(atom@),
        QueryExpr::Not { child } => ExprV::Not(Box::new(expr_view(child))),
        QueryExpr::Group { group } => ExprV::Group(group.op, child_views(group)),
    }
}

pub open spec fn child_views(g: &BoolGroup) -> Seq<ExprV>
    decreases g,
{
    Seq::new(
        g.children@.len(),
        |i: int|
            if 0 <= i < g.children@.len() {
                expr_view(&g.children@[i])
            } else {
                ExprV::Group(BoolOp::And, Seq::empty())
            },
    )
}

impl View for QueryExpr {
    type V = ExprV;

    open spec fn view(&self) -> ExprV {
        expr_view(self)
    }
}

impl View for BoolGroup {
    type V = ExprV;

    open spec fn view(&self) -> ExprV {
        ExprV::Group(self.op, child_views(self))
    }
}

/// Strips leading negations: their parity and the first non-negation node.
pub open spec fn denote(e: ExprV) -> (bool, ExprV)
    decreases e,
{
    match e {
        ExprV::Not(child) => {
            let (n, core) = denote(*child);
            (!n, core)
        },
        _ => (false, e),
    }
}

/// The (possibly negated) atom an expression is, if any.
pub open spec fn atom_of(e: ExprV) -> Option<AtomV> {
    match denote(e).1 {
        ExprV::Atom(a) => Some(a),
        _ => None,
    }
}

/// The group an expression denotes, if any.
pub open spec fn group_of(e: ExprV) -> Option<(BoolOp, Seq<ExprV>)> {
    match denote(e).1 {
        ExprV::Group(op, cs) => Some((op, cs)),
        _ => None,
    }
}

pub open spec fn term_expr(atom: AtomV, polarity: TagPolarity) -> ExprV {
    match polarity {
        TagPolarity::Positive => ExprV::Atom(atom),
        TagPolarity::Negative => ExprV::Not(Box::new(ExprV::Atom(atom))),
    }
}

pub open spec fn polarity_of(negated: bool) -> TagPolarity {
    if negated { TagPolarity::Negative } else { TagPolarity::Positive }
}

/// The node at `path`: each step denotes the current node and picks a group child.
pub open spec fn sub_at(e: ExprV, path: Seq<usize>) -> Option<ExprV>
    decreases path.len(),
{
    if path.len() == 0 {
        Some(e)
    } else {
        match group_of(e) {
            Some((_, cs)) => if path[0] < cs.len() {
                sub_at(cs[path[0] as int], path.drop_first())
            } else {
                None
            },
            None => None,
        }
    }
}

/// The group at `path`, looking through negations at the target too.
pub open spec fn group_at(e: ExprV, path: Seq<usize>) -> Option<(BoolOp, Seq<ExprV>)> {
    match sub_at(e, path) {
        Some(t) => group_of(t),
        None => None,
    }
}

/// `e` with the group at `path` replaced by `Group(op, cs)`; every negation stays.
pub open spec fn with_group_at(e: ExprV, path: Seq<usize>, op: BoolOp, cs: Seq<ExprV>) -> ExprV
    decreases e, path.len(),
{
    match e {
        ExprV::Not(child) => ExprV::Not(Box::new(with_group_at(*child, path, op, cs))),
        ExprV::Group(gop, gcs) => if path.len() == 0 {
            ExprV::Group(op, cs)
        } else if path[0] < gcs.len() {
            ExprV::Group(gop, gcs.update(path[0] as int, with_group_at(gcs[path[0] as int], path.drop_first(), op, cs)))
        } else {
            e
        },
        ExprV::Atom(_) => e,
    }
}

/// `e` with the node at `path` negated, or un-negated when it is a negation.
pub open spec fn toggled_at(e: ExprV, path: Seq<usize>) -> ExprV
    decreases e, path.len(),
{
    if path.len() == 0 {
        match e {
            ExprV::Not(child) => *child,
            _ => ExprV::Not(Box::new(e)),
        }
    } else {
        match e {
            ExprV::Not(child) => ExprV::Not(Box::new(toggled_at(*child, path))),
            ExprV::Group(gop, gcs) => if path[0] < gcs.len() {
                ExprV::Group(gop, gcs.update(path[0] as int, toggled_at(gcs[path[0] as int], path.drop_first())))
            } else {
                e
            },
            ExprV::Atom(_) => e,
        }
    }
}

/// The children that are not the atom `a`, negated or not.
pub open spec fn without_atom(cs: Seq<ExprV>, a: AtomV) -> Seq<ExprV> {
    cs.filter(|c: ExprV| atom_of(c) != Some(a))
}

/// `e` with every child that is the atom `a` removed from every group, at any depth.
pub open spec fn stripped(e: ExprV, a: AtomV) -> ExprV
    decreases e,
{
    match e {
        ExprV::Atom(_) => e,
        ExprV::Not(child) => ExprV::Not(Box::new(stripped(*child, a))),
        ExprV::Group(op, cs) => ExprV::Group(op, stripped_children(cs, a)),
    }
}

pub open spec fn stripped_children(cs: Seq<ExprV>, a: AtomV) -> Seq<ExprV>
    decreases cs,
{
    if cs.len() == 0 {
        Seq::empty()
    } else {
        let rest = stripped_children(cs.drop_first(), a);
        if atom_of(cs[0]) == Some(a) {
            rest
        } else {
            seq![stripped(cs[0], a)] + rest
        }
    }
}

/// The polarity of the first occurrence of `a`, in depth-first order.
pub open spec fn polarity_in(e: ExprV, a: AtomV, negated: bool) -> Option<TagPolarity>
    decreases e,
{
    match e {
        ExprV::Atom(c) => if c == a { Some(polarity_of(negated)) } else { None },
        ExprV::Not(child) => polarity_in(*child, a, !negated),
        ExprV::Group(_, cs) => polarity_among(cs, a, negated),
    }
}

pub open spec fn polarity_among(cs: Seq<ExprV>, a: AtomV, negated: bool) -> Option<TagPolarity>
    decreases cs,
{
    if cs.len() == 0 {
        None
    } else {
        match polarity_in(cs[0], a, negated) {
            Some(p) => Some(p),
            None => polarity_among(cs.drop_first(), a, negated),
        }
    }
}


pub open spec fn views(v: Seq<QueryExpr>) -> Seq<ExprV> {
    v.map_values(|c: QueryExpr| c@)
}

pub proof fn lemma_child_views(g: &BoolGroup)
    ensures
        child_views(g) == views(g.children@),
        g@ == ExprV::Group(g.op, views(g.children@)),
{
    assert(child_views(g) =~= views(g.children@));
}

/// One structural change to the children or operator of a group.
#[derive(Debug)]
pub enum GroupEdit {
    SetOp(BoolOp),
    PushGroup(BoolOp),
    PushAtom(QueryAtom, TagPolarity),
    RemoveChild(usize),
}

/// The operator and children after an edit, or `None` when the edit does not apply.
pub open spec fn edited(op: BoolOp, cs: Seq<ExprV>, edit: &GroupEdit) -> Option<(BoolOp, Seq<ExprV>)> {
    match edit {
        GroupEdit::SetOp(o) => Some((*o, cs)),
        GroupEdit::PushGroup(o) => Some((op, cs.push(ExprV::Group(*o, Seq::empty())))),
        GroupEdit::PushAtom(a, p) => Some((op, without_atom(cs, a@).push(term_expr(a@, *p)))),
        GroupEdit::RemoveChild(k) => if *k < cs.len() {
            Some((op, cs.remove(*k as int)))
        } else {
            None
        },
    }
}

impl QueryExpr {
    pub fn denote(&self) -> (r: (bool, &QueryExpr))
        ensures
            (r.0, r.1@) == denote(self@),
            !(r.1 is Not),
        decreases self,
    {
        match self {
            QueryExpr::Not { child } => {
                let (negated, core) = child.denote();
                (!negated, core)
            },
            _ => (false, self),
        }
    }

    /// The group this node denotes, through its negations, for editing in place.
    pub fn group_mut(&mut self) -> (r: Option<&mut BoolGroup>)
        ensures
            match group_of(old(self)@) {
                Some((op, cs)) => r matches Some(g) && g.op == op && child_views(g) == cs,
                None => r is None,
            },
            r is None ==> final(self)@ == old(self)@,
            r matches Some(g) ==> final(self)@ == with_group_at(old(self)@, Seq::empty(), final(g).op, child_views(final(g))),
        decreases *old(self),
    {
        match self {
            QueryExpr::Not { child } => child.group_mut(),
            QueryExpr::Group { group } => Some(group),
            QueryExpr::Atom { .. } => None,
        }
    }

    pub fn group(&self) -> (r: Option<&BoolGroup>)
        ensures
            match group_of(self@) {
                Some((op, cs)) => r matches Some(g) && g.op == op && child_views(g) == cs,
                None => r is None,
            },
    {
        match self.denote().1 {
            QueryExpr::Group { group } => Some(group),
            _ => None,
        }
    }

    pub fn atom(&self) -> (r: Option<&QueryAtom>)
        ensures
            match atom_of(self@) {
                Some(a) => r matches Some(x) && x@ == a,
                None => r is None,
            },
    {
        match self.denote().1 {
            QueryExpr::Atom { atom } => Some(atom),
            _ => None,
        }
    }

    pub fn term(&self) -> (r: Option<QueryTerm>)
        ensures
            match denote(self@).1 {
                ExprV::Atom(a) => r matches Some(t) && t.atom@ == a && t.polarity == polarity_of(denote(self@).0),
                _ => r is None,
            },
    {
        let (negated, core) = self.denote();
        match core {
            QueryExpr::Atom { atom } => Some(QueryTerm {
                atom: atom.copy(),
                polarity: if negated { TagPolarity::Negative } else { TagPolarity::Positive },
            }),
            _ => None,
        }
    }

    /// A deep copy.
    #[verifier::loop_isolation(false)]
    pub fn copy(&self) -> (r: QueryExpr)
        ensures
            r@ == self@,
        decreases self,
    {
        match self {
            QueryExpr::Atom { atom } => QueryExpr::Atom { atom: atom.copy() },
            QueryExpr::Not { child } => QueryExpr::Not { child: Box::new(child.copy()) },
            QueryExpr::Group { group } => {
                let mut children: Vec<QueryExpr> = Vec::new();
                let mut i: usize = 0;
                while i < group.children.len()
                    invariant
                        i <= group.children@.len(),
                        views(children@) == views(group.children@).take(i as int),
                    decreases group.children.len() - i,
                {
                    proof { assert(decreases_to!(group.children => group.children@[i as int])); }
                    let c = group.children[i].copy();
                    children.push(c);
                    assert(views(children@) =~= views(group.children@).take(i + 1));
                    i = i + 1;
                }
                let g = BoolGroup { op: group.op, children };
                proof {
                    lemma_child_views(group);
                    lemma_child_views(&g);
                    assert(views(group.children@).take(i as int) =~= views(group.children@));
                }
                QueryExpr::Group { group: g }
            },
        }
    }

    /// Whether two expressions are the same tree.
    #[verifier::loop_isolation(false)]
    pub fn same(&self, other: &QueryExpr) -> (r: bool)
        ensures
            r == (self@ == other@),
        decreases self,
    {
        match (self, other) {
            (QueryExpr::Atom { atom: a }, QueryExpr::Atom { atom: b }) => a.same(b),
            (QueryExpr::Not { child: a }, QueryExpr::Not { child: b }) => a.same(b),
            (QueryExpr::Group { group: a }, QueryExpr::Group { group: b }) => {
                proof {
                    lemma_child_views(a);
                    lemma_child_views(b);
                }
                if a.op != b.op || a.children.len() != b.children.len() {
                    assert(views(a.children@).len() == a.children@.len());
                    assert(views(b.children@).len() == b.children@.len());
                    assert(self@ == ExprV::Group(a.op, views(a.children@)));
                    assert(other@ == ExprV::Group(b.op, views(b.children@)));
                    return false;
                }
                let mut i: usize = 0;
                while i < a.children.len()
                    invariant
                        i <= a.children@.len() == b.children@.len(),
                        views(a.children@).take(i as int) == views(b.children@).take(i as int),
                    decreases a.children.len() - i,
                {
                    proof { assert(decreases_to!(a.children => a.children@[i as int])); }
                    if !a.children[i].same(&b.children[i]) {
                        assert(views(a.children@)[i as int] != views(b.children@)[i as int]);
                        return false;
                    }
                    assert(views(a.children@).take(i + 1) =~= views(a.children@).take(i as int).push(views(a.children@)[i as int]));
                    assert(views(b.children@).take(i + 1) =~= views(b.children@).take(i as int).push(views(b.children@)[i as int]));
                    i = i + 1;
                }
                assert(views(a.children@) =~= views(a.children@).take(i as int));
                assert(views(b.children@) =~= views(b.children@).take(i as int));
                true
            },
            _ => false,
        }
    }
}

/// An atom with the polarity it is queried with.
#[derive(Debug)]
pub struct QueryTerm {
    pub atom: QueryAtom,
    pub polarity: TagPolarity,
}


pub proof fn lemma_group_at_not(c: ExprV, p: Seq<usize>)
    ensures
        group_at(ExprV::Not(Box::new(c)), p) == group_at(c, p),
        p.len() > 0 ==> sub_at(ExprV::Not(Box::new(c)), p) == sub_at(c, p),
{
    assert(group_of(ExprV::Not(Box::new(c))) == group_of(c));
}

proof fn lemma_without_atom_push(cs: Seq<ExprV>, c: ExprV, a: AtomV)
    ensures
        without_atom(cs.push(c), a) == if atom_of(c) != Some(a) {
            without_atom(cs, a).push(c)
        } else {
            without_atom(cs, a)
        },
{
    cs.lemma_filter_push(c, |x: ExprV| atom_of(x) != Some(a));
}

/// The children without those that are the atom `a`.
fn drop_atom(children: Vec<QueryExpr>, a: &QueryAtom) -> (r: Vec<QueryExpr>)
    ensures
        views(r@) == without_atom(views(children@), a@),
{
    let ghost orig = views(children@);
    let n = children.len();
    assert(orig.len() == n);
    let mut rest = children;
    let mut out: Vec<QueryExpr> = Vec::new();
    let mut i: usize = 0;
    while rest.len() > 0
        invariant
            i <= orig.len(),
            orig.len() == i + rest@.len(),
            orig.len() <= usize::MAX,
            views(rest@) == orig.skip(i as int),
            views(out@) == without_atom(orig.take(i as int), a@),
        decreases rest.len(),
    {
        let ghost old_rest = rest@;
        let child = rest.remove(0);
        assert(rest@ =~= old_rest.drop_first());
        assert(views(rest@) =~= views(old_rest).drop_first());
        assert(views(old_rest)[0] == orig[i as int]);
        assert(views(rest@) =~= orig.skip(i + 1));
        assert(child@ == orig[i as int]);
        assert(orig.take(i + 1).drop_last() =~= orig.take(i as int));
        assert(orig.take(i + 1).last() == orig[i as int]);
        proof { lemma_without_atom_push(orig.take(i as int), orig[i as int], a@); }
        assert(orig.take(i as int).push(orig[i as int]) =~= orig.take(i + 1));
        let keep = match child.atom() {
            Some(x) => !x.same(a),
            None => true,
        };
        if keep {
            out.push(child);
            assert(views(out@) =~= views(out@).drop_last().push(child@));
        } else {
            assert(views(out@) =~= without_atom(orig.take(i + 1), a@));
        }
        i = i + 1;
    }
    assert(orig.take(i as int) =~= orig);
    out
}

fn apply_edit(group: BoolGroup, edit: GroupEdit) -> (r: (BoolGroup, bool))
    ensures
        match edited(group.op, child_views(&group), &edit) {
            Some((op, cs)) => r.1 && r.0.op == op && child_views(&r.0) == cs,
            None => !r.1 && r.0@ == group@,
        },
{
    proof { lemma_child_views(&group); }
    let BoolGroup { op, children } = group;
    match edit {
        GroupEdit::SetOp(o) => {
            let g = BoolGroup { op: o, children };
            proof { lemma_child_views(&g); }
            (g, true)
        },
        GroupEdit::PushGroup(o) => {
            let mut children = children;
            let empty = BoolGroup { op: o, children: Vec::new() };
            proof {
                lemma_child_views(&empty);
                assert(views(empty.children@) =~= Seq::<ExprV>::empty());
            }
            children.push(QueryExpr::Group { group: empty });
            let g = BoolGroup { op, children };
            proof {
                lemma_child_views(&g);
                assert(views(g.children@) =~= views(group.children@).push(ExprV::Group(o, Seq::empty())));
            }
            (g, true)
        },
        GroupEdit::PushAtom(atom, polarity) => {
            let mut children = drop_atom(children, &atom);
            let ghost kept = views(children@);
            let ghost av = atom@;
            let term = QueryTerm { atom, polarity }.into_expr();
            children.push(term);
            let g = BoolGroup { op, children };
            proof {
                lemma_child_views(&g);
                assert(views(g.children@) =~= kept.push(term_expr(av, polarity)));
            }
            (g, true)
        },
        GroupEdit::RemoveChild(k) => {
            if k < children.len() {
                let mut children = children;
                let _removed = children.remove(k);
                let g = BoolGroup { op, children };
                proof {
                    lemma_child_views(&g);
                    assert(views(g.children@) =~= views(group.children@).remove(k as int));
                }
                (g, true)
            } else {
                let g = BoolGroup { op, children };
                proof { lemma_child_views(&g); }
                (g, false)
            }
        },
    }
}

/// Applies `edit` to the group at `path[i..]`.
fn edit_group(e: QueryExpr, path: &[usize], i: usize, edit: GroupEdit) -> (r: (QueryExpr, bool))
    requires
        i <= path@.len(),
    ensures
        match group_at(e@, path@.skip(i as int)) {
            Some((op, cs)) => match edited(op, cs, &edit) {
                Some((op2, cs2)) => r.1 && r.0@ == with_group_at(e@, path@.skip(i as int), op2, cs2),
                None => !r.1 && r.0@ == e@,
            },
            None => !r.1 && r.0@ == e@,
        },
    decreases path@.len() - i, e,
{
    let ghost p = path@.skip(i as int);
    let ghost ev = e@;
    match e {
        QueryExpr::Not { child } => {
            let ghost c = (*child)@;
            assert(ev == ExprV::Not(Box::new(c)));
            proof { lemma_group_at_not(c, p); }
            let ghost gat = group_at(c, p);
            let ghost ed = edit;
            let (inner, ok) = edit_group(*child, path, i, edit);
            let r = QueryExpr::Not { child: Box::new(inner) };
            assert(r@ == ExprV::Not(Box::new(inner@)));
            proof {
                match gat {
                    Some((op, cs)) => match edited(op, cs, &ed) {
                        Some((op2, cs2)) => {
                            assert(with_group_at(ev, p, op2, cs2) == ExprV::Not(Box::new(with_group_at(c, p, op2, cs2))));
                        },
                        None => {
                            assert(inner@ == c);
                            assert(r@ == ev);
                            assert(!ok);
                            assert(group_at(ev, p) == gat);
                        },
                    },
                    None => {
                        assert(inner@ == c);
                        assert(r@ == ev);
                    },
                }
            }
            assert(ev == e@);
            assert(ed == edit);
            assert(p == path@.skip(i as int));
            let res = (r, ok);
            assert(match group_at(ev, p) {
                Some((op, cs)) => match edited(op, cs, &ed) {
                    Some((op2, cs2)) => res.1 && res.0@ == with_group_at(ev, p, op2, cs2),
                    None => !res.1 && res.0@ == ev,
                },
                None => !res.1 && res.0@ == ev,
            });
            res
        },
        QueryExpr::Group { group } => {
            proof { lemma_child_views(&group); }
            if i == path.len() {
                let (g, ok) = apply_edit(group, edit);
                proof { lemma_child_views(&g); }
                (QueryExpr::Group { group: g }, ok)
            } else {
                let k = path[i];
                assert(p.drop_first() =~= path@.skip(i + 1));
                if k < group.children.len() {
                    let BoolGroup { op, children } = group;
                    let ghost before = views(children@);
                    let mut children = children;
                    let child = children.remove(k);
                    let (inner, ok) = edit_group(child, path, i + 1, edit);
                    children.insert(k, inner);
                    let g = BoolGroup { op, children };
                    proof {
                        lemma_child_views(&g);
                        assert(views(g.children@) =~= before.update(k as int, g.children@[k as int]@));
                        assert(before.update(k as int, before[k as int]) =~= before);
                    }
                    (QueryExpr::Group { group: g }, ok)
                } else {
                    (QueryExpr::Group { group }, false)
                }
            }
        },
        QueryExpr::Atom { atom } => (QueryExpr::Atom { atom }, false),
    }
}

impl QueryTerm {
    pub fn into_expr(self) -> (r: QueryExpr)
        ensures
            r@ == term_expr(self.atom@, self.polarity),
    {
        let ghost av = self.atom@;
        let atom = QueryExpr::Atom { atom: self.atom };
        assert(atom@ == ExprV::Atom(av));
        match self.polarity {
            TagPolarity::Positive => atom,
            TagPolarity::Negative => QueryExpr::Not { child: Box::new(atom) },
        }
    }
}


/// Negates, or un-negates, the node at `path[i..]`.
fn toggle_at(e: QueryExpr, path: &[usize], i: usize) -> (r: (QueryExpr, bool))
    requires
        i <= path@.len(),
    ensures
        match sub_at(e@, path@.skip(i as int)) {
            Some(_) => r.1 && r.0@ == toggled_at(e@, path@.skip(i as int)),
            None => !r.1 && r.0@ == e@,
        },
    decreases path@.len() - i, e,
{
    let ghost p = path@.skip(i as int);
    let ghost ev = e@;
    if i == path.len() {
        return match e {
            QueryExpr::Not { child } => (*child, true),
            other => (QueryExpr::Not { child: Box::new(other) }, true),
        };
    }
    assert(p.drop_first() =~= path@.skip(i + 1));
    match e {
        QueryExpr::Not { child } => {
            let ghost c = (*child)@;
            proof { lemma_group_at_not(c, p); }
            let (inner, ok) = toggle_at(*child, path, i);
            let r = QueryExpr::Not { child: Box::new(inner) };
            assert(r@ == ExprV::Not(Box::new(inner@)));
            (r, ok)
        },
        QueryExpr::Group { group } => {
            proof { lemma_child_views(&group); }
            let k = path[i];
            if k < group.children.len() {
                let BoolGroup { op, children } = group;
                let ghost before = views(children@);
                let mut children = children;
                let child = children.remove(k);
                let (inner, ok) = toggle_at(child, path, i + 1);
                children.insert(k, inner);
                let g = BoolGroup { op, children };
                proof {
                    lemma_child_views(&g);
                    assert(views(g.children@) =~= before.update(k as int, g.children@[k as int]@));
                    assert(before.update(k as int, before[k as int]) =~= before);
                }
                (QueryExpr::Group { group: g }, ok)
            } else {
                (QueryExpr::Group { group }, false)
            }
        },
        QueryExpr::Atom { atom } => (QueryExpr::Atom { atom }, false),
    }
}

/// Removes every child that is the atom `a` from every group of `e`.
#[verifier::loop_isolation(false)]
fn strip(e: QueryExpr, a: &QueryAtom) -> (r: QueryExpr)
    ensures
        r@ == stripped(e@, a@),
    decreases e,
{
    let ghost ev = e@;
    match e {
        QueryExpr::Atom { atom } => QueryExpr::Atom { atom },
        QueryExpr::Not { child } => {
            let inner = strip(*child, a);
            let r = QueryExpr::Not { child: Box::new(inner) };
            assert(r@ == ExprV::Not(Box::new(inner@)));
            r
        },
        QueryExpr::Group { group } => {
            proof { lemma_child_views(&group); }
            let BoolGroup { op, children } = group;
            let ghost orig = views(children@);
            let ghost orig_exec = children@;
            let n = children.len();
            let mut rest = children;
            let mut out: Vec<QueryExpr> = Vec::new();
            let mut i: usize = 0;
            assert(orig.skip(0) =~= orig);
            assert(views(out@) + stripped_children(orig, a@) =~= stripped_children(orig, a@));
            assert(rest@ =~= orig_exec.skip(0));
            while rest.len() > 0
                invariant
                    i <= n == orig.len(),
                    n == i + rest@.len(),
                    orig == views(orig_exec),
                    rest@ == orig_exec.skip(i as int),
                    views(out@) + stripped_children(orig.skip(i as int), a@) == stripped_children(orig, a@),
                decreases rest.len(),
            {
                let ghost old_rest = rest@;
                let child = rest.remove(0);
                assert(rest@ =~= orig_exec.skip(i + 1));
                assert(child == orig_exec[i as int]);
                assert(orig.skip(i as int).drop_first() =~= orig.skip(i + 1));
                assert(orig.skip(i as int)[0] == child@);
                proof { assert(decreases_to!(group.children => group.children@[i as int])); }
                let drop = match child.atom() {
                    Some(x) => x.same(a),
                    None => false,
                };
                if !drop {
                    let ghost cv = child@;
                    let kept = strip(child, a);
                    let ghost out_before = views(out@);
                    out.push(kept);
                    assert(views(out@) =~= out_before.push(stripped(cv, a@)));
                    assert(views(out@) + stripped_children(orig.skip(i + 1), a@)
                        =~= out_before + stripped_children(orig.skip(i as int), a@));
                }
                i = i + 1;
            }
            assert(orig.skip(i as int) =~= Seq::<ExprV>::empty());
            assert(views(out@) + stripped_children(orig.skip(i as int), a@) =~= views(out@));
            let g = BoolGroup { op, children: out };
            proof { lemma_child_views(&g); }
            QueryExpr::Group { group: g }
        },
    }
}

impl QueryExpr {
    /// The node at `path[i..]`.
    fn expr_at(&self, path: &[usize], i: usize) -> (r: Option<&QueryExpr>)
        requires
            i <= path@.len(),
        ensures
            match sub_at(self@, path@.skip(i as int)) {
                Some(t) => r matches Some(x) && x@ == t,
                None => r is None,
            },
        decreases path@.len() - i,
    {
        if i == path.len() {
            return Some(self);
        }
        let ghost p = path@.skip(i as int);
        assert(p.drop_first() =~= path@.skip(i + 1));
        match self.group() {
            Some(group) => {
                proof { lemma_child_views(group); }
                let k = path[i];
                if k < group.children.len() {
                    group.children[k].expr_at(path, i + 1)
                } else {
                    None
                }
            },
            None => None,
        }
    }

    /// The polarity of the first occurrence of `atom` under `negated` outer negations.
    #[verifier::loop_isolation(false)]
    fn polarity_of(&self, atom: &QueryAtom, negated: bool) -> (r: Option<TagPolarity>)
        ensures
            r == polarity_in(self@, atom@, negated),
        decreases self,
    {
        match self {
            QueryExpr::Atom { atom: candidate } => {
                if candidate.same(atom) {
                    Some(if negated { TagPolarity::Negative } else { TagPolarity::Positive })
                } else {
                    None
                }
            },
            QueryExpr::Not { child } => child.polarity_of(atom, !negated),
            QueryExpr::Group { group } => {
                proof { lemma_child_views(group); }
                let ghost cs = views(group.children@);
                let mut i: usize = 0;
                assert(cs.skip(0) =~= cs);
                while i < group.children.len()
                    invariant
                        i <= group.children@.len(),
                        cs == views(group.children@),
                        polarity_among(cs, atom@, negated) == polarity_among(cs.skip(i as int), atom@, negated),
                    decreases group.children.len() - i,
                {
                    proof { assert(decreases_to!(group.children => group.children@[i as int])); }
                    assert(cs.skip(i as int)[0] == group.children@[i as int]@);
                    assert(cs.skip(i as int).drop_first() =~= cs.skip(i + 1));
                    let found = group.children[i].polarity_of(atom, negated);
                    if found.is_some() {
                        return found;
                    }
                    i = i + 1;
                }
                assert(cs.skip(i as int) =~= Seq::<ExprV>::empty());
                None
            },
        }
    }
}


impl PartialEq for Query {
    fn eq(&self, other: &Query) -> (r: bool) {
        self.same(other)
    }
}

impl vstd::std_specs::cmp::PartialEqSpecImpl for Query {
    open spec fn obeys_eq_spec() -> bool {
        true
    }

    open spec fn eq_spec(&self, other: &Query) -> bool {
        self@ == other@
    }
}

impl Eq for Query {}

impl Default for Query {
    fn default() -> (r: Query)
        ensures
            r@ == empty_and(),
    {
        Query::empty()
    }
}

impl PartialEq for QueryAtom {
    fn eq(&self, other: &QueryAtom) -> (r: bool) {
        self.same(other)
    }
}

impl vstd::std_specs::cmp::PartialEqSpecImpl for QueryAtom {
    open spec fn obeys_eq_spec() -> bool {
        true
    }

    open spec fn eq_spec(&self, other: &QueryAtom) -> bool {
        self@ == other@
    }
}

impl Eq for QueryAtom {}

pub open spec fn empty_and() -> ExprV {
    ExprV::Group(BoolOp::And, Seq::empty())
}

/// A Boolean query: a tree whose root is usually a group.
#[derive(Debug)]
pub struct Query {
    root: QueryExpr,
}

impl View for Query {
    type V = ExprV;

    closed spec fn view(&self) -> ExprV {
        self.root@
    }
}

fn empty_root() -> (r: QueryExpr)
    ensures
        r@ == empty_and(),
{
    let g = BoolGroup { op: BoolOp::And, children: Vec::new() };
    proof {
        lemma_child_views(&g);
        assert(views(g.children@) =~= Seq::<ExprV>::empty());
    }
    QueryExpr::Group { group: g }
}

impl Query {
    /// The empty query: an `AND` group without children, which matches everything.
    pub fn empty() -> (r: Query)
        ensures
            r@ == empty_and(),
    {
        Query { root: empty_root() }
    }

    pub fn from_root(root: QueryExpr) -> (r: Query)
        ensures
            r@ == root@,
    {
        Query { root }
    }

    pub fn root(&self) -> (r: &QueryExpr)
        ensures
            r@ == self@,
    {
        &self.root
    }

    pub fn copy(&self) -> (r: Query)
        ensures
            r@ == self@,
    {
        Query { root: self.root.copy() }
    }

    pub fn same(&self, other: &Query) -> (r: bool)
        ensures
            r == (self@ == other@),
    {
        self.root.same(&other.root)
    }

    pub fn is_empty(&self) -> (r: bool)
        ensures
            r == (self@ == empty_and()),
    {
        match &self.root {
            QueryExpr::Group { group } => {
                proof {
                    lemma_child_views(group);
                    if group.children@.len() == 0 {
                        assert(views(group.children@) =~= Seq::<ExprV>::empty());
                    } else {
                        assert(views(group.children@).len() != Seq::<ExprV>::empty().len());
                    }
                }
                group.op == BoolOp::And && group.children.len() == 0
            },
            _ => false,
        }
    }

    pub fn group(&self, path: &[usize]) -> (r: Option<&BoolGroup>)
        ensures
            match group_at(self@, path@) {
                Some((op, cs)) => r matches Some(g) && g.op == op && child_views(g) == cs,
                None => r is None,
            },
    {
        assert(path@.skip(0) =~= path@);
        match self.root.expr_at(path, 0) {
            Some(expr) => expr.group(),
            None => None,
        }
    }

    fn take_root(&mut self) -> (r: QueryExpr)
        ensures
            r@ == old(self)@,
    {
        let mut root = empty_root();
        std::mem::swap(&mut root, &mut self.root);
        root
    }

    fn edit(&mut self, path: &[usize], edit: GroupEdit) -> (r: bool)
        ensures
            match group_at(old(self)@, path@) {
                Some((op, cs)) => match edited(op, cs, &edit) {
                    Some((op2, cs2)) => r && final(self)@ == with_group_at(old(self)@, path@, op2, cs2),
                    None => !r && final(self)@ == old(self)@,
                },
                None => !r && final(self)@ == old(self)@,
            },
    {
        let root = self.take_root();
        assert(path@.skip(0) =~= path@);
        let (root, ok) = edit_group(root, path, 0, edit);
        self.root = root;
        ok
    }

    pub fn set_group_op(&mut self, path: &[usize], op: BoolOp) -> (r: bool)
        ensures
            match group_at(old(self)@, path@) {
                Some((_, cs)) => r && final(self)@ == with_group_at(old(self)@, path@, op, cs),
                None => !r && final(self)@ == old(self)@,
            },
    {
        self.edit(path, GroupEdit::SetOp(op))
    }

    /// Appends an empty group under the group at `path`; returns the new group's path.
    pub fn push_group(&mut self, path: &[usize], op: BoolOp) -> (r: Option<Vec<usize>>)
        ensures
            match group_at(old(self)@, path@) {
                Some((gop, cs)) => r matches Some(p) && p@ == path@.push(cs.len() as usize)
                    && final(self)@ == with_group_at(old(self)@, path@, gop, cs.push(ExprV::Group(op, Seq::empty()))),
                None => r is None && final(self)@ == old(self)@,
            },
    {
        let ghost g = group_at(self@, path@);
        let slot = match self.group(path) {
            Some(group) => group.children.len(),
            None => return None,
        };
        proof {
            let (_, cs) = g.unwrap();
            assert(slot == cs.len());
        }
        let _pushed = self.edit(path, GroupEdit::PushGroup(op));
        let mut out = vstd::slice::slice_to_vec(path);
        out.push(slot);
        Some(out)
    }

    /// Adds a term to the group at `path`, replacing every child that is the same atom.
    pub fn push_atom(&mut self, path: &[usize], atom: QueryAtom, polarity: TagPolarity) -> (r: bool)
        ensures
            match group_at(old(self)@, path@) {
                Some((op, cs)) => r && final(self)@ == with_group_at(
                    old(self)@,
                    path@,
                    op,
                    without_atom(cs, atom@).push(term_expr(atom@, polarity)),
                ),
                None => !r && final(self)@ == old(self)@,
            },
    {
        self.edit(path, GroupEdit::PushAtom(atom, polarity))
    }

    pub fn remove_child(&mut self, parent: &[usize], child: usize) -> (r: bool)
        ensures
            match group_at(old(self)@, parent@) {
                Some((op, cs)) => if child < cs.len() {
                    r && final(self)@ == with_group_at(old(self)@, parent@, op, cs.remove(child as int))
                } else {
                    !r && final(self)@ == old(self)@
                },
                None => !r && final(self)@ == old(self)@,
            },
    {
        self.edit(parent, GroupEdit::RemoveChild(child))
    }

    /// Removes every child that is `atom`, negated or not, from every group.
    pub fn remove_atom(&mut self, atom: &QueryAtom)
        ensures
            final(self)@ == stripped(old(self)@, atom@),
    {
        let root = self.take_root();
        self.root = strip(root, atom);
    }

    pub fn toggle_not(&mut self, path: &[usize]) -> (r: bool)
        ensures
            match sub_at(old(self)@, path@) {
                Some(_) => r && final(self)@ == toggled_at(old(self)@, path@),
                None => !r && final(self)@ == old(self)@,
            },
    {
        let root = self.take_root();
        assert(path@.skip(0) =~= path@);
        let (root, ok) = toggle_at(root, path, 0);
        self.root = root;
        ok
    }

    /// `path` when it names a group, otherwise the root path.
    pub fn clamp_group_path(&self, path: &[usize]) -> (r: Vec<usize>)
        ensures
            r@ == if group_at(self@, path@) is Some { path@ } else { Seq::empty() },
    {
        if self.group(path).is_some() {
            vstd::slice::slice_to_vec(path)
        } else {
            Vec::new()
        }
    }

    pub fn polarity(&self, tag: &Tag) -> (r: Option<TagPolarity>)
        ensures
            r == polarity_in(self@, AtomV::Tag(tag@), false),
    {
        self.atom_polarity(&QueryAtom::Tag(tag.copy()))
    }

    pub fn atom_polarity(&self, atom: &QueryAtom) -> (r: Option<TagPolarity>)
        ensures
            r == polarity_in(self@, atom@, false),
    {
        self.root.polarity_of(atom, false)
    }
}


pub open spec fn neg_prefix() -> Seq<char> {
    "NOT "@
}

/// The text of an expression's core, leading negations aside.
pub open spec fn core_text(e: ExprV) -> Seq<char>
    decreases e,
{
    match e {
        ExprV::Atom(a) => atom_term(a),
        ExprV::Not(c) => core_text(*c),
        ExprV::Group(op, cs) => op_label(op) + seq!['('] + children_text(cs) + seq![')'],
    }
}

/// The children's texts, separated by single spaces.
pub open spec fn children_text(cs: Seq<ExprV>) -> Seq<char>
    decreases cs,
{
    if cs.len() == 0 {
        Seq::empty()
    } else {
        let first = if denote(cs[0]).0 { neg_prefix() + core_text(cs[0]) } else { core_text(cs[0]) };
        if cs.len() == 1 {
            first
        } else {
            first + seq![' '] + children_text(cs.drop_first())
        }
    }
}

/// The diagnostic text of an expression: `NOT`, operator labels and parenthesised children.
pub open spec fn expr_text(e: ExprV) -> Seq<char> {
    if denote(e).0 { neg_prefix() + core_text(e) } else { core_text(e) }
}

pub open spec fn term_text(a: AtomV, p: TagPolarity) -> Seq<char> {
    match p {
        TagPolarity::Positive => atom_term(a),
        TagPolarity::Negative => seq!['-'] + atom_term(a),
    }
}

/// The terms of an `AND` root whose children are all (possibly negated) atoms.
pub open spec fn flat_terms(e: ExprV) -> Option<Seq<(AtomV, TagPolarity)>> {
    match e {
        ExprV::Group(BoolOp::And, cs) => if forall|i: int| 0 <= i < cs.len() ==> (#[trigger] atom_of(cs[i])) is Some {
            Some(Seq::new(cs.len(), |i: int| (atom_of(cs[i]).unwrap(), polarity_of(denote(cs[i]).0))))
        } else {
            None
        },
        _ => None,
    }
}

/// `Query::to_text`: empty, the flat tag-list form, or the tree form.
pub open spec fn query_text(e: ExprV) -> Seq<char> {
    if e == empty_and() {
        Seq::empty()
    } else {
        match flat_terms(e) {
            Some(ts) => join(ts.map_values(|t: (AtomV, TagPolarity)| term_text(t.0, t.1)), ' '),
            None => expr_text(e),
        }
    }
}

pub proof fn lemma_children_text_push(cs: Seq<ExprV>, c: ExprV)
    ensures
        children_text(cs.push(c)) == if cs.len() == 0 {
            if denote(c).0 { neg_prefix() + core_text(c) } else { core_text(c) }
        } else {
            children_text(cs) + seq![' '] + (if denote(c).0 { neg_prefix() + core_text(c) } else { core_text(c) })
        },
    decreases cs.len(),
{
    let s = cs.push(c);
    if cs.len() > 0 {
        assert(s.drop_first() =~= cs.drop_first().push(c));
        lemma_children_text_push(cs.drop_first(), c);
        assert(s[0] == cs[0]);
    }
}

fn append_chars(out: &mut Vec<char>, more: &[char])
    ensures
        final(out)@ == old(out)@ + more@,
{
    let mut i: usize = 0;
    let ghost start = out@;
    while i < more.len()
        invariant
            i <= more@.len(),
            out@ == start + more@.take(i as int),
        decreases more.len() - i,
    {
        out.push(more[i]);
        assert(out@ =~= start + more@.take(i + 1));
        i = i + 1;
    }
    assert(more@.take(i as int) =~= more@);
}

fn str_chars(s: &str) -> (r: Vec<char>)
    ensures
        r@ == s@,
{
    chars_of(s)
}

impl QueryExpr {
    #[verifier::loop_isolation(false)]
    fn core_chars(&self) -> (r: Vec<char>)
        ensures
            r@ == core_text(self@),
        decreases self,
    {
        match self {
            QueryExpr::Atom { atom } => str_chars(atom.term().as_str()),
            QueryExpr::Not { child } => child.core_chars(),
            QueryExpr::Group { group } => {
                proof { lemma_child_views(group); }
                let ghost cs = views(group.children@);
                let mut inner: Vec<char> = Vec::new();
                let mut i: usize = 0;
                while i < group.children.len()
                    invariant
                        i <= group.children@.len(),
                        cs == views(group.children@),
                        inner@ == children_text(cs.take(i as int)),
                    decreases group.children.len() - i,
                {
                    proof { assert(decreases_to!(group.children => group.children@[i as int])); }
                    let child = &group.children[i];
                    proof { lemma_children_text_push(cs.take(i as int), child@); }
                    assert(cs.take(i as int).push(child@) =~= cs.take(i + 1));
                    if i > 0 {
                        inner.push(' ');
                    }
                    let (negated, _) = child.denote();
                    if negated {
                        append_chars(&mut inner, &str_chars("NOT "));
                    }
                    append_chars(&mut inner, &child.core_chars());
                    assert(inner@ =~= children_text(cs.take(i + 1)));
                    i = i + 1;
                }
                assert(cs.take(i as int) =~= cs);
                let mut out = str_chars(group.op.label());
                out.push('(');
                append_chars(&mut out, &inner);
                out.push(')');
                assert(out@ =~= op_label(group.op) + seq!['('] + children_text(cs) + seq![')']);
                out
            },
        }
    }

    pub fn to_text(&self) -> (r: String)
        ensures
            r@ == expr_text(self@),
    {
        let (negated, _) = self.denote();
        let mut out: Vec<char> = Vec::new();
        if negated {
            out = str_chars("NOT ");
        }
        append_chars(&mut out, &self.core_chars());
        string_from(&out)
    }
}

impl QueryTerm {
    pub fn into_text(self) -> (r: String)
        ensures
            r@ == term_text(self.atom@, self.polarity),
    {
        let term = self.atom.term();
        match self.polarity {
            TagPolarity::Positive => term,
            TagPolarity::Negative => {
                let mut text = String::from_str("-");
                text.append(term.as_str());
                proof { reveal_strlit("-"); }
                text
            },
        }
    }
}

pub open spec fn term_views(v: Seq<QueryTerm>) -> Seq<(AtomV, TagPolarity)> {
    v.map_values(|t: QueryTerm| (t.atom@, t.polarity))
}

/// The term a whitespace-free token stands for: `-` excludes, a leading `+` is dropped.
pub open spec fn token_term(tok: Seq<char>) -> Option<(AtomV, TagPolarity)> {
    if tok.len() > 0 && tok[0] == '-' {
        match atom_parse(tok.drop_first()) {
            Some(a) => Some((a, TagPolarity::Negative)),
            None => None,
        }
    } else {
        let body = if tok.len() > 0 && tok[0] == '+' { tok.drop_first() } else { tok };
        match atom_parse(body) {
            Some(a) => Some((a, TagPolarity::Positive)),
            None => None,
        }
    }
}

/// The terms of the tokens that stand for one, in order.
pub open spec fn terms_of(ws: Seq<Seq<char>>) -> Seq<(AtomV, TagPolarity)>
    decreases ws.len(),
{
    if ws.len() == 0 {
        Seq::empty()
    } else {
        let rest = terms_of(ws.drop_last());
        match token_term(ws.last()) {
            Some(t) => rest.push(t),
            None => rest,
        }
    }
}

pub open spec fn parsed_root(raw: Seq<char>) -> ExprV {
    ExprV::Group(BoolOp::And, terms_of(words(raw)).map_values(|t: (AtomV, TagPolarity)| term_expr(t.0, t.1)))
}

fn token_of(tok: &[char]) -> (r: Option<QueryTerm>)
    ensures
        match token_term(tok@) {
            Some(t) => r matches Some(x) && x.atom@ == t.0 && x.polarity == t.1,
            None => r is None,
        },
{
    if tok.len() > 0 && tok[0] == '-' {
        let body = slice_chars(tok, 1, tok.len());
        assert(body@ =~= tok@.drop_first());
        match QueryAtom::parse_chars(&body) {
            Some(atom) => Some(QueryTerm { atom, polarity: TagPolarity::Negative }),
            None => None,
        }
    } else {
        let body = if tok.len() > 0 && tok[0] == '+' {
            slice_chars(tok, 1, tok.len())
        } else {
            slice_chars(tok, 0, tok.len())
        };
        assert(tok@.subrange(1, tok@.len() as int) =~= tok@.drop_first());
        assert(tok@.subrange(0, tok@.len() as int) =~= tok@);
        match QueryAtom::parse_chars(&body) {
            Some(atom) => Some(QueryTerm { atom, polarity: TagPolarity::Positive }),
            None => None,
        }
    }
}

impl Query {
    /// The whitespace-separated search terms of `raw`; tokens that name no atom are skipped.
    pub fn parse_terms(raw: &str) -> (r: Vec<QueryTerm>)
        ensures
            term_views(r@) == terms_of(words(raw@)),
    {
        let tokens = split_words(&chars_of(raw));
        let ghost ws = words(raw@);
        let mut out: Vec<QueryTerm> = Vec::new();
        let mut i: usize = 0;
        while i < tokens.len()
            invariant
                i <= tokens@.len() == ws.len(),
                ws == words(raw@),
                forall|k: int| 0 <= k < tokens@.len() ==> #[trigger] tokens@[k]@ == ws[k],
                term_views(out@) == terms_of(ws.take(i as int)),
            decreases tokens.len() - i,
        {
            assert(ws.take(i + 1).drop_last() =~= ws.take(i as int));
            assert(ws.take(i + 1).last() == tokens@[i as int]@);
            match token_of(&tokens[i]) {
                Some(term) => {
                    out.push(term);
                    assert(term_views(out@) =~= term_views(out@).drop_last().push(term_views(out@).last()));
                },
                None => {},
            }
            assert(term_views(out@) =~= terms_of(ws.take(i + 1)));
            i = i + 1;
        }
        assert(ws.take(i as int) =~= ws);
        out
    }

    /// The `AND` of the search terms of `raw`.
    pub fn parse(raw: &str) -> (r: Query)
        ensures
            r@ == parsed_root(raw@),
    {
        let terms = Self::parse_terms(raw);
        let ghost tv = term_views(terms@);
        let mut rest = terms;
        let mut children: Vec<QueryExpr> = Vec::new();
        let mut i: usize = 0;
        let n = rest.len();
        assert(tv.skip(0) =~= tv);
        while rest.len() > 0
            invariant
                i <= n == tv.len(),
                n == i + rest@.len(),
                term_views(rest@) == tv.skip(i as int),
                views(children@) == tv.take(i as int).map_values(|t: (AtomV, TagPolarity)| term_expr(t.0, t.1)),
            decreases rest.len(),
        {
            let ghost old_rest = rest@;
            let term = rest.remove(0);
            assert(rest@ =~= old_rest.drop_first());
            assert(term_views(rest@) =~= term_views(old_rest).drop_first());
            assert(term_views(rest@) =~= tv.skip(i + 1));
            assert(term_views(old_rest)[0] == tv[i as int]);
            let ghost before = views(children@);
            let e = term.into_expr();
            children.push(e);
            assert(views(children@) =~= before.push(e@));
            assert(tv.take(i + 1).map_values(|t: (AtomV, TagPolarity)| term_expr(t.0, t.1))
                =~= tv.take(i as int).map_values(|t: (AtomV, TagPolarity)| term_expr(t.0, t.1)).push(term_expr(tv[i as int].0, tv[i as int].1)));
            i = i + 1;
        }
        assert(tv.take(i as int) =~= tv);
        let g = BoolGroup { op: BoolOp::And, children };
        proof { lemma_child_views(&g); }
        Query { root: QueryExpr::Group { group: g } }
    }

    pub fn key(&self) -> (r: String)
        ensures
            r@ == query_text(self@),
    {
        self.to_text()
    }

    pub fn to_text(&self) -> (r: String)
        ensures
            r@ == query_text(self@),
    {
        if self.is_empty() {
            return String::new();
        }
        match self.flat_terms() {
            Some(terms) => {
                let mut texts: Vec<Vec<char>> = Vec::new();
                let ghost tv = term_views(terms@);
                let mut rest = terms;
                let mut i: usize = 0;
                let n = rest.len();
                assert(tv.skip(0) =~= tv);
                while rest.len() > 0
                    invariant
                        i <= n == tv.len(),
                        n == i + rest@.len(),
                        term_views(rest@) == tv.skip(i as int),
                        texts@.len() == i,
                        forall|k: int| 0 <= k < i ==> #[trigger] texts@[k]@ == term_text(tv[k].0, tv[k].1),
                    decreases rest.len(),
                {
                    let ghost old_rest = rest@;
                    let term = rest.remove(0);
                    assert(rest@ =~= old_rest.drop_first());
                    assert(term_views(rest@) =~= term_views(old_rest).drop_first());
                    assert(term_views(rest@) =~= tv.skip(i + 1));
                    assert(term_views(old_rest)[0] == tv[i as int]);
                    let text = term.into_text();
                    texts.push(str_chars(text.as_str()));
                    i = i + 1;
                }
                let joined = join_with(&texts, ' ');
                assert(texts@.map_values(|p: Vec<char>| p@) =~= tv.map_values(|t: (AtomV, TagPolarity)| term_text(t.0, t.1)));
                string_from(&joined)
            },
            None => self.root.to_text(),
        }
    }

    fn flat_terms(&self) -> (r: Option<Vec<QueryTerm>>)
        ensures
            match flat_terms(self@) {
                Some(ts) => r matches Some(v) && term_views(v@) == ts,
                None => r is None,
            },
    {
        match &self.root {
            QueryExpr::Group { group } => {
                proof { lemma_child_views(group); }
                if group.op != BoolOp::And {
                    return None;
                }
                let ghost cs = views(group.children@);
                assert(self@ == ExprV::Group(BoolOp::And, cs));
                let mut out: Vec<QueryTerm> = Vec::new();
                let mut i: usize = 0;
                while i < group.children.len()
                    invariant
                        i <= group.children@.len(),
                        cs == views(group.children@),
                        self@ == ExprV::Group(BoolOp::And, cs),
                        out@.len() == i,
                        forall|k: int| 0 <= k < i ==> (#[trigger] atom_of(cs[k])) is Some,
                        forall|k: int| 0 <= k < i ==> #[trigger] term_views(out@)[k] == (atom_of(cs[k]).unwrap(), polarity_of(denote(cs[k]).0)),
                    decreases group.children.len() - i,
                {
                    assert(cs[i as int] == group.children@[i as int]@);
                    match group.children[i].term() {
                        Some(term) => {
                            let ghost before = term_views(out@);
                            out.push(term);
                            assert(term_views(out@) =~= before.push((term.atom@, term.polarity)));
                            assert(term_views(out@)[i as int] == (atom_of(cs[i as int]).unwrap(), polarity_of(denote(cs[i as int]).0)));
                        },
                        None => {
                            assert(atom_of(cs[i as int]) is None);
                            assert(!(forall|k: int| 0 <= k < cs.len() ==> (#[trigger] atom_of(cs[k])) is Some));
                            return None;
                        },
                    }
                    i = i + 1;
                }
                assert(term_views(out@) =~= Seq::new(cs.len(), |k: int| (atom_of(cs[k]).unwrap(), polarity_of(denote(cs[k]).0))));
                Some(out)
            },
            _ => None,
        }
    }
}


/// The order of `#[derive(Ord)]` on `QueryAtom`: tags, then ratings, then patterns.
pub open spec fn atom_lt(a: AtomV, b: AtomV) -> bool {
    match (a, b) {
        (AtomV::Tag(x), AtomV::Tag(y)) => seq_lt(x, y),
        (AtomV::Tag(_), _) => true,
        (AtomV::Rating(x), AtomV::Rating(y)) => rating_rank(x) < rating_rank(y),
        (AtomV::Rating(_), AtomV::Pattern(_)) => true,
        (AtomV::Rating(_), AtomV::Tag(_)) => false,
        (AtomV::Pattern(x), AtomV::Pattern(y)) => seq_lt(x, y),
        (AtomV::Pattern(_), _) => false,
    }
}

pub open spec fn strictly_sorted(s: Seq<AtomV>) -> bool {
    forall|i: int, j: int| 0 <= i < j < s.len() ==> atom_lt(#[trigger] s[i], #[trigger] s[j])
}

pub proof fn lemma_atom_lt_irreflexive(a: AtomV)
    ensures
        !atom_lt(a, a),
{
    match a {
        AtomV::Tag(x) => lemma_seq_lt_irreflexive(x),
        AtomV::Pattern(x) => lemma_seq_lt_irreflexive(x),
        _ => {},
    }
}

pub proof fn lemma_atom_lt_asymmetric(a: AtomV, b: AtomV)
    requires
        atom_lt(a, b),
    ensures
        !atom_lt(b, a),
{
    match (a, b) {
        (AtomV::Tag(x), AtomV::Tag(y)) => lemma_seq_lt_asymmetric(x, y),
        (AtomV::Pattern(x), AtomV::Pattern(y)) => lemma_seq_lt_asymmetric(x, y),
        _ => {},
    }
}

pub proof fn lemma_atom_lt_transitive(a: AtomV, b: AtomV, c: AtomV)
    requires
        atom_lt(a, b),
        atom_lt(b, c),
    ensures
        atom_lt(a, c),
{
    match (a, b, c) {
        (AtomV::Tag(x), AtomV::Tag(y), AtomV::Tag(z)) => lemma_seq_lt_transitive(x, y, z),
        (AtomV::Pattern(x), AtomV::Pattern(y), AtomV::Pattern(z)) => lemma_seq_lt_transitive(x, y, z),
        _ => {},
    }
}

pub proof fn lemma_atom_lt_total(a: AtomV, b: AtomV)
    ensures
        atom_lt(a, b) || atom_lt(b, a) || a == b,
{
    match (a, b) {
        (AtomV::Tag(x), AtomV::Tag(y)) => lemma_seq_lt_total(x, y),
        (AtomV::Pattern(x), AtomV::Pattern(y)) => lemma_seq_lt_total(x, y),
        (AtomV::Rating(x), AtomV::Rating(y)) => {},
        _ => {},
    }
}

/// Two strictly sorted sequences with the same elements are the same sequence.
pub proof fn lemma_sorted_unique(s1: Seq<AtomV>, s2: Seq<AtomV>)
    requires
        strictly_sorted(s1),
        strictly_sorted(s2),
        s1.to_set() == s2.to_set(),
    ensures
        s1 == s2,
    decreases s1.len(),
{
    if s1.len() == 0 {
        if s2.len() > 0 {
            assert(s2.to_set().contains(s2[0]));
        }
        assert(s1 =~= s2);
    } else {
        assert(s1.to_set().contains(s1[0]));
        assert(s2.len() > 0);
        assert(s2.to_set().contains(s2[0]));
        let a = s1[0];
        let b = s2[0];
        assert(s2.contains(a));
        assert(s1.contains(b));
        let ia = choose|i: int| 0 <= i < s2.len() && s2[i] == a;
        let ib = choose|i: int| 0 <= i < s1.len() && s1[i] == b;
        if a != b {
            if ia > 0 {
                assert(atom_lt(s2[0], s2[ia]));
            }
            if ib > 0 {
                assert(atom_lt(s1[0], s1[ib]));
            }
            lemma_atom_lt_asymmetric(a, b);
        }
        let t1 = s1.drop_first();
        let t2 = s2.drop_first();
        assert(strictly_sorted(t1)) by {
            assert forall|i: int, j: int| 0 <= i < j < t1.len() implies atom_lt(#[trigger] t1[i], #[trigger] t1[j]) by {
                assert(t1[i] == s1[i + 1] && t1[j] == s1[j + 1]);
            }
        }
        assert(strictly_sorted(t2)) by {
            assert forall|i: int, j: int| 0 <= i < j < t2.len() implies atom_lt(#[trigger] t2[i], #[trigger] t2[j]) by {
                assert(t2[i] == s2[i + 1] && t2[j] == s2[j + 1]);
            }
        }
        assert(t1.to_set() =~= t2.to_set()) by {
            assert forall|x: AtomV| t1.to_set().contains(x) implies t2.to_set().contains(x) by {
                let k = choose|k: int| 0 <= k < t1.len() && t1[k] == x;
                assert(s1[k + 1] == x);
                assert(atom_lt(s1[0], s1[k + 1]));
                lemma_atom_lt_irreflexive(x);
                assert(s2.to_set().contains(x));
                let m = choose|m: int| 0 <= m < s2.len() && s2[m] == x;
                assert(m != 0);
                assert(t2[m - 1] == x);
            }
            assert forall|x: AtomV| t2.to_set().contains(x) implies t1.to_set().contains(x) by {
                let k = choose|k: int| 0 <= k < t2.len() && t2[k] == x;
                assert(s2[k + 1] == x);
                assert(atom_lt(s2[0], s2[k + 1]));
                lemma_atom_lt_irreflexive(x);
                assert(s1.to_set().contains(x));
                let m = choose|m: int| 0 <= m < s1.len() && s1[m] == x;
                assert(m != 0);
                assert(t1[m - 1] == x);
            }
        }
        lemma_sorted_unique(t1, t2);
        assert(s1 =~= seq![a] + t1);
        assert(s2 =~= seq![b] + t2);
    }
}

/// The atoms every match of `e` must carry positively, under `negated` outer negations.
pub open spec fn required(e: ExprV, negated: bool) -> Set<AtomV>
    decreases e,
{
    match e {
        ExprV::Atom(a) => if negated { Set::empty() } else { set![a] },
        ExprV::Not(c) => required(*c, !negated),
        ExprV::Group(op, cs) => if negated {
            Set::empty()
        } else {
            match op {
                BoolOp::And => required_all(cs),
                _ => required_any(cs),
            }
        },
    }
}

/// A plain conjunction of included atoms requires exactly its own atoms: the seed of a
/// query like `solo 1girl` narrows the crawl by both.
pub proof fn lemma_conjunction_requires_its_atoms(atoms: Seq<AtomV>)
    ensures
        required(ExprV::Group(BoolOp::And, atoms.map_values(|a: AtomV| ExprV::Atom(a))), false)
            == atoms.to_set(),
{
    lemma_required_all_atoms(atoms);
}

proof fn lemma_required_all_atoms(atoms: Seq<AtomV>)
    ensures
        required_all(atoms.map_values(|a: AtomV| ExprV::Atom(a))) == atoms.to_set(),
    decreases atoms.len(),
{
    let cs = atoms.map_values(|a: AtomV| ExprV::Atom(a));
    if atoms.len() == 0 {
        assert(atoms.to_set() =~= Set::<AtomV>::empty());
    } else {
        let rest = atoms.drop_first();
        lemma_required_all_atoms(rest);
        assert(cs.drop_first() =~= rest.map_values(|a: AtomV| ExprV::Atom(a)));
        assert(cs[0] == ExprV::Atom(atoms[0]));
        assert(required(cs[0], false) == set![atoms[0]]);
        assert(required_all(cs) == required(cs[0], false).union(required_all(cs.drop_first())));
        assert(atoms.to_set() =~= set![atoms[0]].union(rest.to_set())) by {
            assert forall|x: AtomV| atoms.to_set().contains(x) implies set![atoms[0]].union(rest.to_set()).contains(x) by {
                let k = choose|k: int| 0 <= k < atoms.len() && atoms[k] == x;
                if k > 0 {
                    assert(rest[k - 1] == x);
                }
            }
            assert forall|x: AtomV| set![atoms[0]].union(rest.to_set()).contains(x) implies atoms.to_set().contains(x) by {
                if x == atoms[0] {
                    assert(atoms[0] == x);
                } else {
                    let k = choose|k: int| 0 <= k < rest.len() && rest[k] == x;
                    assert(atoms[k + 1] == x);
                }
            }
        }
    }
}

/// Union over the children.
pub open spec fn required_all(cs: Seq<ExprV>) -> Set<AtomV>
    decreases cs,
{
    if cs.len() == 0 {
        Set::empty()
    } else {
        required(cs[0], false).union(required_all(cs.drop_first()))
    }
}

/// Intersection over the children; empty without children.
pub open spec fn required_any(cs: Seq<ExprV>) -> Set<AtomV>
    decreases cs,
{
    if cs.len() == 0 {
        Set::empty()
    } else if cs.len() == 1 {
        required(cs[0], false)
    } else {
        required(cs[0], false).intersect(required_any(cs.drop_first()))
    }
}

pub open spec fn atom_views(v: Seq<QueryAtom>) -> Seq<AtomV> {
    v.map_values(|a: QueryAtom| a@)
}

impl QueryAtom {
    pub fn compare(&self, other: &QueryAtom) -> (r: Order)
        ensures
            r == Order::Less <==> atom_lt(self@, other@),
            r == Order::Equal <==> self@ == other@,
            r == Order::Greater <==> atom_lt(other@, self@),
    {
        match (self, other) {
            (QueryAtom::Tag(a), QueryAtom::Tag(b)) => compare_chars(&chars_of(a.as_str()), &chars_of(b.as_str())),
            (QueryAtom::Tag(_), _) => Order::Less,
            (QueryAtom::Rating(a), QueryAtom::Rating(b)) => {
                let x = rank_of(*a);
                let y = rank_of(*b);
                if x < y { Order::Less } else if x == y { Order::Equal } else { Order::Greater }
            },
            (QueryAtom::Rating(_), QueryAtom::Pattern(_)) => Order::Less,
            (QueryAtom::Rating(_), QueryAtom::Tag(_)) => Order::Greater,
            (QueryAtom::Pattern(a), QueryAtom::Pattern(b)) => compare_chars(&chars_of(a.source()), &chars_of(b.source())),
            (QueryAtom::Pattern(_), _) => Order::Greater,
        }
    }
}

fn rank_of(r: RatingClass) -> (n: u8)
    ensures
        n as int == rating_rank(r),
{
    match r {
        RatingClass::General => 0,
        RatingClass::Sensitive => 1,
        RatingClass::Questionable => 2,
        RatingClass::Explicit => 3,
    }
}

/// Inserts `x` into a strictly sorted list unless it is already there.
fn insert_sorted(v: &mut Vec<QueryAtom>, x: QueryAtom)
    requires
        strictly_sorted(atom_views(old(v)@)),
    ensures
        strictly_sorted(atom_views(final(v)@)),
        atom_views(final(v)@).to_set() == atom_views(old(v)@).to_set().insert(x@),
{
    let ghost s = atom_views(v@);
    let mut k: usize = 0;
    while k < v.len() && v[k].compare(&x) == Order::Less
        invariant
            k <= v@.len(),
            s == atom_views(v@),
            strictly_sorted(s),
            forall|j: int| 0 <= j < k ==> atom_lt(#[trigger] s[j], x@),
        decreases v.len() - k,
    {
        k = k + 1;
    }
    if k < v.len() && v[k].compare(&x) == Order::Equal {
        assert(s.to_set().insert(x@) =~= s.to_set()) by {
            assert(s.to_set().contains(s[k as int]));
        }
        return;
    }
    proof {
        if k < s.len() {
            lemma_atom_lt_total(s[k as int], x@);
            assert(atom_lt(x@, s[k as int]));
        }
    }
    let ghost xv = x@;
    v.insert(k, x);
    let ghost t = atom_views(v@);
    assert(t =~= s.insert(k as int, xv));
    assert(strictly_sorted(t)) by {
        assert forall|i: int, j: int| 0 <= i < j < t.len() implies atom_lt(#[trigger] t[i], #[trigger] t[j]) by {
            if j < k {
            } else if j == k {
                assert(t[i] == s[i]);
            } else if i == k {
                assert(t[j] == s[j - 1]);
                if j - 1 > k {
                    assert(atom_lt(s[k as int], s[j - 1]));
                    lemma_atom_lt_transitive(xv, s[k as int], s[j - 1]);
                }
            } else if i < k {
                assert(t[i] == s[i] && t[j] == s[j - 1]);
            } else {
                assert(t[i] == s[i - 1] && t[j] == s[j - 1]);
            }
        }
    }
    assert(t.to_set() =~= s.to_set().insert(xv)) by {
        assert forall|y: AtomV| t.to_set().contains(y) implies s.to_set().insert(xv).contains(y) by {
            let m = choose|m: int| 0 <= m < t.len() && t[m] == y;
            if m < k {
                assert(s[m] == y);
            } else if m > k {
                assert(s[m - 1] == y);
            }
        }
        assert forall|y: AtomV| s.to_set().insert(xv).contains(y) implies t.to_set().contains(y) by {
            if y == xv {
                assert(t[k as int] == y);
            } else {
                let m = choose|m: int| 0 <= m < s.len() && s[m] == y;
                if m < k {
                    assert(t[m] == y);
                } else {
                    assert(t[m + 1] == y);
                }
            }
        }
    }
}

fn contains_atom(v: &Vec<QueryAtom>, x: &QueryAtom) -> (r: bool)
    ensures
        r == atom_views(v@).contains(x@),
{
    let mut i: usize = 0;
    while i < v.len()
        invariant
            i <= v@.len(),
            forall|j: int| 0 <= j < i ==> atom_views(v@)[j] != x@,
        decreases v.len() - i,
    {
        if v[i].same(x) {
            assert(atom_views(v@)[i as int] == x@);
            return true;
        }
        i = i + 1;
    }
    false
}

/// The elements of a strictly sorted list that also occur in `b`.
fn intersect_sorted(a: Vec<QueryAtom>, b: &Vec<QueryAtom>) -> (r: Vec<QueryAtom>)
    requires
        strictly_sorted(atom_views(a@)),
    ensures
        strictly_sorted(atom_views(r@)),
        atom_views(r@).to_set() == atom_views(a@).to_set().intersect(atom_views(b@).to_set()),
{
    let ghost s = atom_views(a@);
    let ghost bs = atom_views(b@);
    let n = a.len();
    let mut rest = a;
    let mut out: Vec<QueryAtom> = Vec::new();
    let mut i: usize = 0;
    while rest.len() > 0
        invariant
            i <= n == s.len(),
            n == i + rest@.len(),
            atom_views(rest@) == s.skip(i as int),
            strictly_sorted(s),
            bs == atom_views(b@),
            strictly_sorted(atom_views(out@)),
            forall|k: int| 0 <= k < out@.len() ==> forall|j: int| i <= j < n ==> atom_lt(#[trigger] atom_views(out@)[k], #[trigger] s[j]),
            atom_views(out@).to_set() == s.take(i as int).to_set().intersect(bs.to_set()),
        decreases rest.len(),
    {
        let ghost old_rest = rest@;
        let ghost s0 = s.take(i as int);
        let ghost s1 = s.take(i + 1);
        let x = rest.remove(0);
        assert(rest@ =~= old_rest.drop_first());
        assert(atom_views(rest@) =~= atom_views(old_rest).drop_first());
        assert(atom_views(old_rest)[0] == x@);
        assert(s.skip(i as int)[0] == s[i as int]);
        assert(x@ == s[i as int]);
        let ghost before = atom_views(out@);
        assert(s1 =~= s0.push(s[i as int]));
        if contains_atom(b, &x) {
            let ghost xv = x@;
            out.push(x);
            assert(atom_views(out@) =~= before.push(xv));
            assert(atom_views(out@).to_set() =~= s1.to_set().intersect(bs.to_set())) by {
                assert forall|y: AtomV| atom_views(out@).to_set().contains(y) implies s1.to_set().intersect(bs.to_set()).contains(y) by {
                    let m = choose|m: int| 0 <= m < atom_views(out@).len() && atom_views(out@)[m] == y;
                    if m < before.len() {
                        assert(before[m] == y);
                        assert(before.to_set().contains(y));
                        assert(s0.to_set().intersect(bs.to_set()).contains(y));
                        let q = choose|q: int| 0 <= q < i && s0[q] == y;
                        assert(s1[q] == y);
                    } else {
                        assert(y == xv);
                        assert(bs.contains(y));
                        assert(s1[i as int] == y);
                    }
                }
                assert forall|y: AtomV| s1.to_set().intersect(bs.to_set()).contains(y) implies atom_views(out@).to_set().contains(y) by {
                    let q = choose|q: int| 0 <= q < i + 1 && s1[q] == y;
                    if q < i {
                        assert(s0[q] == y);
                        assert(before.to_set().contains(y));
                        let m = choose|m: int| 0 <= m < before.len() && before[m] == y;
                        assert(atom_views(out@)[m] == y);
                    } else {
                        assert(atom_views(out@)[before.len() as int] == y);
                    }
                }
            }
        } else {
            assert(atom_views(out@).to_set() =~= s1.to_set().intersect(bs.to_set())) by {
                assert forall|y: AtomV| s1.to_set().intersect(bs.to_set()).contains(y) implies atom_views(out@).to_set().contains(y) by {
                    let q = choose|q: int| 0 <= q < i + 1 && s1[q] == y;
                    if q < i {
                        assert(s0[q] == y);
                    } else {
                        assert(bs.contains(y));
                    }
                }
                assert forall|y: AtomV| atom_views(out@).to_set().contains(y) implies s1.to_set().intersect(bs.to_set()).contains(y) by {
                    let q = choose|q: int| 0 <= q < i && s0[q] == y;
                    assert(s1[q] == y);
                }
            }
        }
        i = i + 1;
    }
    assert(s.take(i as int) =~= s);
    out
}

/// Adds every atom of `b` to the strictly sorted list `a`.
fn union_sorted(a: &mut Vec<QueryAtom>, b: Vec<QueryAtom>)
    requires
        strictly_sorted(atom_views(old(a)@)),
    ensures
        strictly_sorted(atom_views(final(a)@)),
        atom_views(final(a)@).to_set() == atom_views(old(a)@).to_set().union(atom_views(b@).to_set()),
{
    let ghost bs = atom_views(b@);
    let ghost start = atom_views(a@).to_set();
    let n = b.len();
    let mut rest = b;
    let mut i: usize = 0;
    while rest.len() > 0
        invariant
            i <= n == bs.len(),
            n == i + rest@.len(),
            atom_views(rest@) == bs.skip(i as int),
            strictly_sorted(atom_views(a@)),
            atom_views(a@).to_set() == start.union(bs.take(i as int).to_set()),
        decreases rest.len(),
    {
        let ghost old_rest = rest@;
        let ghost b0 = bs.take(i as int);
        let ghost b1 = bs.take(i + 1);
        let x = rest.remove(0);
        assert(rest@ =~= old_rest.drop_first());
        assert(atom_views(rest@) =~= atom_views(old_rest).drop_first());
        assert(atom_views(old_rest)[0] == x@);
        assert(bs.skip(i as int)[0] == bs[i as int]);
        assert(x@ == bs[i as int]);
        assert(b1 =~= b0.push(bs[i as int]));
        assert(b1.to_set() =~= b0.to_set().insert(bs[i as int])) by {
            assert forall|y: AtomV| b1.to_set().contains(y) implies b0.to_set().insert(bs[i as int]).contains(y) by {
                let q = choose|q: int| 0 <= q < i + 1 && b1[q] == y;
                if q < i {
                    assert(b0[q] == y);
                }
            }
            assert forall|y: AtomV| b0.to_set().insert(bs[i as int]).contains(y) implies b1.to_set().contains(y) by {
                if y == bs[i as int] {
                    assert(b1[i as int] == y);
                } else {
                    let q = choose|q: int| 0 <= q < i && b0[q] == y;
                    assert(b1[q] == y);
                }
            }
        }
        insert_sorted(a, x);
        assert(atom_views(a@).to_set() =~= start.union(b1.to_set()));
        i = i + 1;
    }
    assert(bs.take(i as int) =~= bs);
}

impl QueryExpr {
    /// The atoms every match must carry positively, sorted by atom order.
    #[verifier::loop_isolation(false)]
    fn required_atoms(&self, negated: bool) -> (r: Vec<QueryAtom>)
        ensures
            strictly_sorted(atom_views(r@)),
            atom_views(r@).to_set() == required(self@, negated),
        decreases self,
    {
        match self {
            QueryExpr::Atom { atom } => {
                if negated {
                    let r: Vec<QueryAtom> = Vec::new();
                    assert(atom_views(r@).to_set() =~= Set::<AtomV>::empty());
                    r
                } else {
                    let r = vec![atom.copy()];
                    assert(atom_views(r@) =~= seq![atom@]);
                    assert(atom_views(r@).to_set() =~= set![atom@]) by {
                        assert(atom_views(r@)[0] == atom@);
                    }
                    r
                }
            },
            QueryExpr::Not { child } => child.required_atoms(!negated),
            QueryExpr::Group { group } => {
                proof { lemma_child_views(group); }
                let ghost cs = views(group.children@);
                if negated {
                    let r: Vec<QueryAtom> = Vec::new();
                    assert(atom_views(r@).to_set() =~= Set::<AtomV>::empty());
                    return r;
                }
                let n = group.children.len();
                assert(cs.len() == n);
                if group.op == BoolOp::And {
                    let mut acc: Vec<QueryAtom> = Vec::new();
                    let mut i: usize = n;
                    assert(cs.skip(n as int) =~= Seq::<ExprV>::empty());
                    assert(atom_views(acc@).to_set() =~= Set::<AtomV>::empty());
                    while i > 0
                        invariant
                            i <= n == cs.len(),
                            cs == views(group.children@),
                            strictly_sorted(atom_views(acc@)),
                            atom_views(acc@).to_set() == required_all(cs.skip(i as int)),
                        decreases i,
                    {
                        i = i - 1;
                        proof { assert(decreases_to!(group.children => group.children@[i as int])); }
                        let part = group.children[i].required_atoms(false);
                        assert(cs.skip(i as int).drop_first() =~= cs.skip(i + 1));
                        assert(cs.skip(i as int)[0] == cs[i as int]);
                        let ghost prev = atom_views(acc@).to_set();
                        union_sorted(&mut acc, part);
                        assert(atom_views(acc@).to_set() =~= required_all(cs.skip(i as int)));
                    }
                    assert(cs.skip(0) =~= cs);
                    acc
                } else {
                    assert(self@ == ExprV::Group(group.op, cs));
                    assert(required(self@, negated) == required_any(cs));
                    if n == 0 {
                        let r: Vec<QueryAtom> = Vec::new();
                        assert(atom_views(r@).to_set() =~= Set::<AtomV>::empty());
                        return r;
                    }
                    let mut i: usize = n - 1;
                    proof { assert(decreases_to!(group.children => group.children@[i as int])); }
                    let mut acc = group.children[i].required_atoms(false);
                    assert(cs.skip(i as int) =~= seq![cs[i as int]]);
                    while i > 0
                        invariant
                            i < n == cs.len(),
                            cs == views(group.children@),
                            strictly_sorted(atom_views(acc@)),
                            atom_views(acc@).to_set() == required_any(cs.skip(i as int)),
                        decreases i,
                    {
                        i = i - 1;
                        proof { assert(decreases_to!(group.children => group.children@[i as int])); }
                        let part = group.children[i].required_atoms(false);
                        assert(cs.skip(i as int).drop_first() =~= cs.skip(i + 1));
                        assert(cs.skip(i as int)[0] == cs[i as int]);
                        acc = intersect_sorted(part, &acc);
                    }
                    assert(cs.skip(0) =~= cs);
                    acc
                }
            },
        }
    }
}


/// The elements of `s` in atom order.
pub open spec fn sorted_atoms(s: Set<AtomV>) -> Seq<AtomV> {
    choose|q: Seq<AtomV>| strictly_sorted(q) && q.to_set() == s
}

pub open spec fn first_rating(s: Seq<AtomV>) -> Option<RatingClass>
    decreases s.len(),
{
    if s.len() == 0 {
        None
    } else {
        match s[0] {
            AtomV::Rating(r) => Some(r),
            _ => first_rating(s.drop_first()),
        }
    }
}

pub open spec fn tag_texts(s: Seq<AtomV>) -> Seq<Seq<char>>
    decreases s.len(),
{
    if s.len() == 0 {
        Seq::empty()
    } else {
        let rest = tag_texts(s.drop_last());
        match s.last() {
            AtomV::Tag(t) => rest.push(t),
            _ => rest,
        }
    }
}

/// At most two narrowing terms (the first rating, then tags in order) and the sort order.
pub open spec fn seed_terms(s: Seq<AtomV>, sort: Sort) -> Seq<Seq<char>> {
    let head = match first_rating(s) {
        Some(r) => seq![rating_term(r)],
        None => Seq::empty(),
    };
    let tags = tag_texts(s);
    let room: int = 2 - head.len();
    let count: int = if tags.len() < room { tags.len() as int } else { room };
    head + tags.take(count) + seq![sort_order_term(sort)]
}

pub open spec fn remote_seed_text(e: ExprV, sort: Sort) -> Seq<char> {
    join(seed_terms(sorted_atoms(required(e, false)), sort), ' ')
}

impl Query {
    /// The required positive atoms, sorted by atom order.
    pub fn required_positive_atoms(&self) -> (r: Vec<QueryAtom>)
        ensures
            atom_views(r@) == sorted_atoms(required(self@, false)),
    {
        let atoms = self.root.required_atoms(false);
        proof {
            let q = sorted_atoms(required(self@, false));
            assert(strictly_sorted(q) && q.to_set() == required(self@, false));
            lemma_sorted_unique(atom_views(atoms@), q);
        }
        atoms
    }

    /// The Danbooru search string that seeds the remote crawl for this query.
    pub fn remote_seed(&self, sort: Sort) -> (r: String)
        ensures
            r@ == remote_seed_text(self@, sort),
    {
        let atoms = self.required_positive_atoms();
        let ghost s = atom_views(atoms@);
        let mut terms: Vec<Vec<char>> = Vec::new();
        let mut i: usize = 0;
        assert(s.skip(0) =~= s);
        while i < atoms.len()
            invariant_except_break
                terms@.len() == 0,
                first_rating(s) == first_rating(s.skip(i as int)),
            invariant
                i <= atoms@.len() == s.len(),
                s == atom_views(atoms@),
            ensures
                terms@.map_values(|p: Vec<char>| p@) == match first_rating(s) {
                    Some(r) => seq![rating_term(r)],
                    None => Seq::<Seq<char>>::empty(),
                },
            decreases atoms.len() - i,
        {
            if i + 1 == atoms.len() {
                assert(s.skip(i + 1) =~= Seq::<AtomV>::empty());
            }
            assert(s.skip(i as int)[0] == atoms@[i as int]@);
            assert(s.skip(i as int).drop_first() =~= s.skip(i + 1));
            match &atoms[i] {
                QueryAtom::Rating(rating) => {
                    let term = rating.term();
                    terms.push(str_chars(term.as_str()));
                    assert(terms@.map_values(|p: Vec<char>| p@) =~= seq![rating_term(*rating)]);
                    break;
                },
                _ => {},
            }
            i = i + 1;
        }
        let room: usize = 2 - terms.len();
        let mut tags: Vec<Vec<char>> = Vec::new();
        let mut j: usize = 0;
        while j < atoms.len()
            invariant
                j <= atoms@.len() == s.len(),
                s == atom_views(atoms@),
                tags@.map_values(|p: Vec<char>| p@) == tag_texts(s.take(j as int)),
            decreases atoms.len() - j,
        {
            assert(s.take(j + 1).drop_last() =~= s.take(j as int));
            assert(s.take(j + 1).last() == atoms@[j as int]@);
            match &atoms[j] {
                QueryAtom::Tag(tag) => {
                    tags.push(str_chars(tag.as_str()));
                },
                _ => {},
            }
            assert(tags@.map_values(|p: Vec<char>| p@) =~= tag_texts(s.take(j + 1)));
            j = j + 1;
        }
        assert(s.take(j as int) =~= s);
        let ghost tv = tag_texts(s);
        let count = if tags.len() < room { tags.len() } else { room };
        let mut k: usize = 0;
        let ghost base = terms@.map_values(|p: Vec<char>| p@);
        while k < count
            invariant
                k <= count <= tags@.len(),
                tags@.map_values(|p: Vec<char>| p@) == tv,
                terms@.map_values(|p: Vec<char>| p@) == base + tv.take(k as int),
            decreases count - k,
        {
            let piece = slice_chars(&tags[k], 0, tags[k].len());
            assert(tags@[k as int]@.subrange(0, tags@[k as int]@.len() as int) =~= tags@[k as int]@);
            let ghost prev = terms@.map_values(|p: Vec<char>| p@);
            assert(tv[k as int] == tags@[k as int]@);
            terms.push(piece);
            assert(terms@.map_values(|p: Vec<char>| p@) =~= prev.push(tv[k as int]));
            assert(base + tv.take(k + 1) =~= (base + tv.take(k as int)).push(tv[k as int]));
            k = k + 1;
        }
        let order = str_chars(sort.danbooru_order());
        terms.push(order);
        assert(terms@.map_values(|p: Vec<char>| p@) =~= seed_terms(s, sort));
        string_from(&join_with(&terms, ' '))
    }
}


/// A post's rating as Danbooru reports it; codes outside the four classes are kept.
#[derive(Debug)]
pub enum Rating {
    General,
    Sensitive,
    Questionable,
    Explicit,
    Unknown(String),
}

impl Rating {
    pub fn parse(raw: &str) -> (r: Rating)
        ensures
            match rating_code(raw@) {
                Some(c) => rating_class_of(&r) == Some(c),
                None => r matches Rating::Unknown(s) && s@ == raw@,
            },
    {
        match RatingClass::parse_code(raw) {
            Some(RatingClass::General) => Rating::General,
            Some(RatingClass::Sensitive) => Rating::Sensitive,
            Some(RatingClass::Questionable) => Rating::Questionable,
            Some(RatingClass::Explicit) => Rating::Explicit,
            None => Rating::Unknown(raw.to_owned()),
        }
    }

    pub fn class(&self) -> (r: Option<RatingClass>)
        ensures
            r == rating_class_of(self),
    {
        match self {
            Rating::General => Some(RatingClass::General),
            Rating::Sensitive => Some(RatingClass::Sensitive),
            Rating::Questionable => Some(RatingClass::Questionable),
            Rating::Explicit => Some(RatingClass::Explicit),
            Rating::Unknown(_) => None,
        }
    }
}

pub open spec fn rating_class_of(r: &Rating) -> Option<RatingClass> {
    match r {
        Rating::General => Some(RatingClass::General),
        Rating::Sensitive => Some(RatingClass::Sensitive),
        Rating::Questionable => Some(RatingClass::Questionable),
        Rating::Explicit => Some(RatingClass::Explicit),
        Rating::Unknown(_) => None,
    }
}

/// One post as the index stores it.
#[derive(Debug)]
pub struct PostRecord {
    pub id: PostId,
    pub rating: Rating,
    pub score: i32,
    pub favs: u32,
    pub width: u32,
    pub height: u32,
    pub created_at: String,
    pub tags: Vec<Tag>,
    pub preview_url: Option<String>,
    pub thumb_360_url: Option<String>,
    pub thumb_720_url: Option<String>,
    pub large_url: Option<String>,
    pub file_url: Option<String>,
}

pub open spec fn url_view(u: Option<String>) -> Option<Seq<char>> {
    match u {
        Some(s) => Some(s@),
        None => None,
    }
}

/// The first present URL of a preference list.
pub open spec fn first_url(us: Seq<Option<Seq<char>>>) -> Option<Seq<char>>
    decreases us.len(),
{
    if us.len() == 0 {
        None
    } else {
        match us[0] {
            Some(u) => Some(u),
            None => first_url(us.drop_first()),
        }
    }
}

pub open spec fn str_view(u: Option<&str>) -> Option<Seq<char>> {
    match u {
        Some(s) => Some(s@),
        None => None,
    }
}

/// Thumbnail sizes a gallery tile may ask for.
#[derive(Clone, Copy, Debug, PartialEq, Eq, Structural)]
pub enum ThumbTier {
    Small,
    Medium,
    Large,
}

fn url_of(u: &Option<String>) -> (r: Option<&str>)
    ensures
        str_view(r) == url_view(*u),
{
    match u {
        Some(s) => Some(s.as_str()),
        None => None,
    }
}

fn first_of<'a>(a: Option<&'a str>, b: Option<&'a str>) -> (r: Option<&'a str>)
    ensures
        str_view(r) == match str_view(a) {
            Some(x) => Some(x),
            None => str_view(b),
        },
{
    match a {
        Some(x) => Some(x),
        None => b,
    }
}

impl PostRecord {
    pub open spec fn blade_prefs(&self) -> Seq<Option<Seq<char>>> {
        seq![url_view(self.preview_url), url_view(self.thumb_360_url), url_view(self.thumb_720_url), url_view(self.large_url), url_view(self.file_url)]
    }

    pub open spec fn full_prefs(&self) -> Seq<Option<Seq<char>>> {
        seq![url_view(self.large_url), url_view(self.file_url), url_view(self.preview_url)]
    }

    pub open spec fn clip_prefs(&self) -> Seq<Option<Seq<char>>> {
        seq![url_view(self.thumb_720_url), url_view(self.large_url), url_view(self.thumb_360_url), url_view(self.preview_url), url_view(self.file_url)]
    }

    pub open spec fn tier_prefs(&self, tier: ThumbTier) -> Seq<Option<Seq<char>>> {
        match tier {
            ThumbTier::Large => seq![url_view(self.thumb_720_url), url_view(self.thumb_360_url), url_view(self.preview_url), url_view(self.large_url), url_view(self.file_url)],
            ThumbTier::Medium => seq![url_view(self.thumb_360_url), url_view(self.preview_url), url_view(self.thumb_720_url), url_view(self.large_url), url_view(self.file_url)],
            ThumbTier::Small => self.blade_prefs(),
        }
    }

    /// Posts tagged `animated` stay out of the index.
    pub fn indexable(&self) -> (r: bool)
        ensures
            r == forall|i: int| 0 <= i < self.tags@.len() ==> self.tags@[i]@ != "animated"@,
    {
        let mut i: usize = 0;
        while i < self.tags.len()
            invariant
                i <= self.tags@.len(),
                forall|k: int| 0 <= k < i ==> self.tags@[k]@ != "animated"@,
            decreases self.tags.len() - i,
        {
            if self.tags[i].blocks_index() {
                return false;
            }
            i = i + 1;
        }
        true
    }

    fn pick<'a>(us: [Option<&'a str>; 5]) -> (r: Option<&'a str>)
        ensures
            str_view(r) == first_url(seq![str_view(us[0]), str_view(us[1]), str_view(us[2]), str_view(us[3]), str_view(us[4])]),
    {
        let ghost s = seq![str_view(us[0]), str_view(us[1]), str_view(us[2]), str_view(us[3]), str_view(us[4])];
        assert(s.drop_first() =~= seq![str_view(us[1]), str_view(us[2]), str_view(us[3]), str_view(us[4])]);
        assert(s.drop_first().drop_first() =~= seq![str_view(us[2]), str_view(us[3]), str_view(us[4])]);
        assert(s.drop_first().drop_first().drop_first() =~= seq![str_view(us[3]), str_view(us[4])]);
        assert(s.drop_first().drop_first().drop_first().drop_first() =~= seq![str_view(us[4])]);
        assert(s.drop_first().drop_first().drop_first().drop_first().drop_first() =~= Seq::<Option<Seq<char>>>::empty());
        proof { reveal_with_fuel(first_url, 6); }
        first_of(us[0], first_of(us[1], first_of(us[2], first_of(us[3], us[4]))))
    }

    /// The smallest image worth showing in a gallery tile.
    pub fn blade_url(&self) -> (r: Option<&str>)
        ensures
            str_view(r) == first_url(self.blade_prefs()),
    {
        Self::pick([url_of(&self.preview_url), url_of(&self.thumb_360_url), url_of(&self.thumb_720_url), url_of(&self.large_url), url_of(&self.file_url)])
    }

    /// The thumbnail URL for a tile of the given size class.
    pub fn thumb_url_tier(&self, tier: ThumbTier) -> (r: Option<&str>)
        ensures
            str_view(r) == first_url(self.tier_prefs(tier)),
    {
        match tier {
            ThumbTier::Large => Self::pick([url_of(&self.thumb_720_url), url_of(&self.thumb_360_url), url_of(&self.preview_url), url_of(&self.large_url), url_of(&self.file_url)]),
            ThumbTier::Medium => Self::pick([url_of(&self.thumb_360_url), url_of(&self.preview_url), url_of(&self.thumb_720_url), url_of(&self.large_url), url_of(&self.file_url)]),
            ThumbTier::Small => self.blade_url(),
        }
    }

    /// The image the full viewer shows.
    pub fn full_url(&self) -> (r: Option<&str>)
        ensures
            str_view(r) == first_url(self.full_prefs()),
    {
        let ghost s = self.full_prefs();
        assert(s.drop_first() =~= seq![url_view(self.file_url), url_view(self.preview_url)]);
        assert(s.drop_first().drop_first() =~= seq![url_view(self.preview_url)]);
        assert(s.drop_first().drop_first().drop_first() =~= Seq::<Option<Seq<char>>>::empty());
        proof { reveal_with_fuel(first_url, 4); }
        first_of(url_of(&self.large_url), first_of(url_of(&self.file_url), url_of(&self.preview_url)))
    }

    /// The image that is embedded for similarity search.
    pub fn clip_url(&self) -> (r: Option<&str>)
        ensures
            str_view(r) == first_url(self.clip_prefs()),
    {
        Self::pick([url_of(&self.thumb_720_url), url_of(&self.large_url), url_of(&self.thumb_360_url), url_of(&self.preview_url), url_of(&self.file_url)])
    }
}

/// One page of search results and the number of candidates behind it.
#[derive(Debug)]
pub struct SearchHit {
    pub posts: Vec<PostRecord>,
    pub candidates: u64,
}

/// Why a crawled post id cannot be indexed.
#[derive(Clone, Copy, Debug, PartialEq, Eq, Structural)]
pub enum PostIdError {
    /// The id does not fit the 32-bit posting bitmaps.
    OutOfRange,
    /// Post id zero does not exist.
    Zero,
}

/// A crawled 64-bit post id as an index key.
pub fn narrow_post_id(id: u64) -> (r: Result<PostId, PostIdError>)
    ensures
        id > u32::MAX ==> r == Err::<PostId, PostIdError>(PostIdError::OutOfRange),
        id == 0 ==> r == Err::<PostId, PostIdError>(PostIdError::Zero),
        0 < id <= u32::MAX ==> r == Ok::<PostId, PostIdError>(PostId(id as u32)),
{
    if id > 0xffff_ffff {
        return Err(PostIdError::OutOfRange);
    }
    if id == 0 {
        return Err(PostIdError::Zero);
    }
    Ok(PostId(id as u32))
}

}
