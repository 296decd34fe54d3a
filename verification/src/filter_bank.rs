//! The sorted collection of saved filters: lookup, the active filter, and fresh names.
use vstd::prelude::*;
use vstd::set_lib::{lemma_int_range, lemma_len_subset, lemma_map_size, set_int_range};

use crate::config::{lemma_valid_push_word, valid_name, compacted, neutral_name, FilterName, SavedFilter};
use crate::model::{query_text, Query};
use crate::text::{
    chars_of, compare_chars, decimal, decimal_of, lemma_decimal_digits, lemma_decimal_injective,
    lemma_seq_lt_asymmetric, lemma_seq_lt_irreflexive, lemma_seq_lt_transitive, seq_lt,
    string_from, Order,
};

verus! {

/// The filters' names strictly ascend, as `sorted` leaves them.
pub open spec fn names_sorted(fs: Seq<SavedFilter>) -> bool {
    forall|i: int, j: int| 0 <= i < j < fs.len() ==> seq_lt(#[trigger] fs[i].name@, #[trigger] fs[j].name@)
}

/// Some filter carries this name.
pub open spec fn name_taken(fs: Seq<SavedFilter>, name: Seq<char>) -> bool {
    exists|i: int| 0 <= i < fs.len() && #[trigger] fs[i].name@ == name
}

/// The `i`-th filter is the first one with its name.
pub open spec fn first_of_name(fs: Seq<SavedFilter>, i: int) -> bool {
    forall|j: int| 0 <= j < i ==> #[trigger] fs[j].name@ != fs[i].name@
}

/// Each of `rs` is the first of `fs` with its name.
pub open spec fn firsts_kept(fs: Seq<SavedFilter>, rs: Seq<SavedFilter>) -> bool {
    forall|k: int| 0 <= k < rs.len() ==> #[trigger] kept_first(fs, rs[k])
}

/// `f` is, among `fs`, the first filter with its name.
pub open spec fn kept_first(fs: Seq<SavedFilter>, f: SavedFilter) -> bool {
    exists|i: int| 0 <= i < fs.len() && first_of_name(fs, i) && f == #[trigger] fs[i]
}

/// The `n`-th fresh name tried for `base`: `base`, a space, and `n` in decimal.
pub open spec fn suffixed(base: Seq<char>, n: nat) -> Seq<char> {
    base.push(' ') + decimal(n)
}

/// The least suffix from 2 on whose name is free.
pub open spec fn least_free_suffix(fs: Seq<SavedFilter>, base: Seq<char>, n: nat) -> bool {
    &&& n >= 2
    &&& !name_taken(fs, suffixed(base, n))
    &&& forall|m: nat| 2 <= m < n ==> name_taken(fs, #[trigger] suffixed(base, m))
}

/// `r` is `base` when that is free, otherwise `base` with the least free suffix.
pub open spec fn spared(fs: Seq<SavedFilter>, base: Seq<char>, r: Seq<char>) -> bool {
    &&& !name_taken(fs, base) ==> r == base
    &&& name_taken(fs, base) ==> exists|n: nat| least_free_suffix(fs, base, n) && r == #[trigger] suffixed(base, n)
}

/// The name a copy of a query starts from: its compacted stem, or `neutral`.
pub open spec fn spare_base(q: crate::model::ExprV) -> Seq<char> {
    if compacted(stem_text(q)).len() > 0 { compacted(stem_text(q)) } else { neutral_name() }
}

/// The first `limit` characters, and an ellipsis when something was cut.
pub open spec fn clipped(text: Seq<char>, limit: nat) -> Seq<char> {
    if text.len() > limit { text.take(limit as int).push('…') } else { text }
}

/// The text a new filter's name starts from: the query's text, or `neutral` for the
/// empty text, clipped to 48 characters.
pub open spec fn stem_text(q: crate::model::ExprV) -> Seq<char> {
    let text = query_text(q);
    clipped(if text.len() == 0 { neutral_name() } else { text }, 48)
}

fn compare_names(a: &FilterName, b: &FilterName) -> (r: Order)
    ensures
        r == Order::Less <==> seq_lt(a@, b@),
        r == Order::Equal <==> a@ == b@,
        r == Order::Greater <==> seq_lt(b@, a@),
{
    let x = chars_of(a.as_str());
    let y = chars_of(b.as_str());
    compare_chars(&x, &y)
}

/// Binary search by name: `Ok` with a slot holding the name, or `Err` with the slot where
/// the name would go.
pub fn locate(name: &FilterName, filters: &[SavedFilter]) -> (r: Result<usize, usize>)
    ensures
        r matches Ok(i) ==> i < filters@.len() && filters@[i as int].name@ == name@,
        r matches Err(i) ==> i <= filters@.len() && (names_sorted(filters@) ==> {
            &&& forall|j: int| 0 <= j < i ==> seq_lt(#[trigger] filters@[j].name@, name@)
            &&& forall|j: int| i <= j < filters@.len() ==> seq_lt(name@, #[trigger] filters@[j].name@)
        }),
{
    let mut lo: usize = 0;
    let mut hi: usize = filters.len();
    while lo < hi
        invariant
            lo <= hi <= filters@.len(),
            names_sorted(filters@) ==> forall|j: int| 0 <= j < lo ==> seq_lt(#[trigger] filters@[j].name@, name@),
            names_sorted(filters@) ==> forall|j: int| hi <= j < filters@.len() ==> seq_lt(name@, #[trigger] filters@[j].name@),
        decreases hi - lo,
    {
        let mid = lo + (hi - lo) / 2;
        match compare_names(&filters[mid].name, name) {
            Order::Less => {
                proof {
                    if names_sorted(filters@) {
                        assert forall|j: int| 0 <= j < mid + 1 implies seq_lt(#[trigger] filters@[j].name@, name@) by {
                            if j < mid {
                                lemma_seq_lt_transitive(filters@[j].name@, filters@[mid as int].name@, name@);
                            }
                        }
                    }
                }
                lo = mid + 1;
            },
            Order::Greater => {
                proof {
                    if names_sorted(filters@) {
                        assert forall|j: int| mid <= j < filters@.len() implies seq_lt(name@, #[trigger] filters@[j].name@) by {
                            if j > mid {
                                lemma_seq_lt_transitive(name@, filters@[mid as int].name@, filters@[j].name@);
                            }
                        }
                    }
                }
                hi = mid;
            },
            Order::Equal => {
                return Ok(mid);
            },
        }
    }
    Err(lo)
}

/// In sorted filters, a failed search means the name is absent.
proof fn lemma_err_absent(fs: Seq<SavedFilter>, name: Seq<char>, i: int)
    requires
        names_sorted(fs),
        0 <= i <= fs.len(),
        forall|j: int| 0 <= j < i ==> seq_lt(#[trigger] fs[j].name@, name),
        forall|j: int| i <= j < fs.len() ==> seq_lt(name, #[trigger] fs[j].name@),
    ensures
        !name_taken(fs, name),
{
    if name_taken(fs, name) {
        let j = choose|j: int| 0 <= j < fs.len() && #[trigger] fs[j].name@ == name;
        lemma_seq_lt_irreflexive(name);
        if j < i {
            assert(seq_lt(fs[j].name@, name));
        } else {
            assert(seq_lt(name, fs[j].name@));
        }
    }
}

/// The filter with this name. On filters that are not sorted by name the search may miss.
pub fn get<'a>(name: &FilterName, filters: &'a [SavedFilter]) -> (r: Option<&'a SavedFilter>)
    ensures
        r matches Some(f) ==> f.name@ == name@ && exists|i: int| 0 <= i < filters@.len() && filters@[i] == *f,
        names_sorted(filters@) ==> (r is Some <==> name_taken(filters@, name@)),
{
    match locate(name, filters) {
        Ok(slot) => Some(&filters[slot]),
        Err(slot) => {
            proof {
                if names_sorted(filters@) {
                    lemma_err_absent(filters@, name@, slot as int);
                }
            }
            None
        },
    }
}

/// Whether some filter already carries this name.
pub fn taken(name: &FilterName, filters: &[SavedFilter]) -> (r: bool)
    ensures
        r ==> name_taken(filters@, name@),
        names_sorted(filters@) ==> (r <==> name_taken(filters@, name@)),
{
    get(name, filters).is_some()
}

/// The active filter's name, kept only while a filter of that name exists.
pub fn active(chosen: Option<FilterName>, filters: &[SavedFilter]) -> (r: Option<FilterName>)
    ensures
        names_sorted(filters@) ==> match chosen {
            Some(a) => if name_taken(filters@, a@) { r matches Some(n) && n@ == a@ } else { r is None },
            None => r is None,
        },
        r matches Some(n) ==> chosen matches Some(a) && n@ == a@ && name_taken(filters@, a@),
{
    match chosen {
        Some(a) => {
            if taken(&a, filters) {
                Some(a)
            } else {
                None
            }
        },
        None => None,
    }
}

/// The filters sorted by name; of filters sharing a name only the first one stays.
pub fn sorted(filters: Vec<SavedFilter>) -> (r: Vec<SavedFilter>)
    ensures
        names_sorted(r@),
        firsts_kept(filters@, r@),
        forall|i: int| 0 <= i < filters@.len() ==> name_taken(r@, #[trigger] filters@[i].name@),
{
    let ghost orig = filters@;
    let total = filters.len();
    let mut rest = filters;
    let mut out: Vec<SavedFilter> = Vec::new();
    let mut i: usize = 0;
    while rest.len() > 0
        invariant
            i <= orig.len(),
            rest@ == orig.skip(i as int),
            names_sorted(out@),
            orig.len() == total,
            firsts_kept(orig, out@),
            forall|j: int| 0 <= j < i ==> name_taken(out@, #[trigger] orig[j].name@),
        decreases rest.len(),
    {
        let ghost before = out@;
        assert(i < orig.len());
        let f = rest.remove(0);
        assert(f == orig[i as int]);
        assert(rest@ =~= orig.skip(i + 1));
        match locate(&f.name, &out) {
            Ok(_) => {},
            Err(p) => {
                proof { lemma_err_absent(before, f.name@, p as int); }
                out.insert(p, f);
                proof {
                    let after = out@;
                    assert forall|a: int, b: int| 0 <= a < b < after.len() implies
                        seq_lt(#[trigger] after[a].name@, #[trigger] after[b].name@) by {
                        if b < p {
                            assert(after[a] == before[a] && after[b] == before[b]);
                        } else if b == p {
                            assert(after[a] == before[a]);
                        } else if a < p {
                            assert(after[a] == before[a] && after[b] == before[b - 1]);
                            lemma_seq_lt_transitive(before[a].name@, f.name@, before[b - 1].name@);
                        } else if a == p {
                            assert(after[b] == before[b - 1]);
                        } else {
                            assert(after[a] == before[a - 1] && after[b] == before[b - 1]);
                        }
                    }
                    assert(first_of_name(orig, i as int)) by {
                        assert forall|j: int| 0 <= j < i implies #[trigger] orig[j].name@ != orig[i as int].name@ by {
                            assert(name_taken(before, orig[j].name@));
                        }
                    }
                    assert forall|k: int| 0 <= k < after.len() implies #[trigger] kept_first(orig, after[k]) by {
                        if k < p {
                            assert(after[k] == before[k]);
                        } else if k == p {
                            assert(after[k] == orig[i as int]);
                            assert(first_of_name(orig, i as int));
                        } else {
                            assert(after[k] == before[k - 1]);
                        }
                    }
                    assert forall|j: int| 0 <= j < i implies name_taken(after, #[trigger] orig[j].name@) by {
                        let k = choose|k: int| 0 <= k < before.len() && #[trigger] before[k].name@ == orig[j].name@;
                        if k < p {
                            assert(after[k] == before[k]);
                        } else {
                            assert(after[k + 1] == before[k]);
                        }
                    }
                    assert(after[p as int].name@ == orig[i as int].name@);
                }
            },
        }
        proof {
            assert(name_taken(out@, orig[i as int].name@));
        }
        i = i + 1;
    }
    assert(orig.skip(i as int).len() == 0);
    assert(i == orig.len());
    assert(firsts_kept(orig, out@));
    out
}

/// Only as many suffixes can be taken as there are filters.
proof fn lemma_taken_suffixes_fit(fs: Seq<SavedFilter>, base: Seq<char>, hi: int)
    requires
        hi >= 2,
        forall|m: nat| 2 <= m < hi ==> name_taken(fs, #[trigger] suffixed(base, m)),
    ensures
        hi - 2 <= fs.len(),
{
    let x = set_int_range(2, hi);
    lemma_int_range(2, hi);
    let f = |n: int| suffixed(base, n as nat);
    let y = x.map(f);
    assert(vstd::relations::injective_on(f, x)) by {
        assert forall|a: int, b: int| x.contains(a) && x.contains(b) && #[trigger] f(a) == #[trigger] f(b) implies a == b by {
            assert(f(a).skip(base.len() as int + 1) =~= decimal(a as nat));
            assert(f(b).skip(base.len() as int + 1) =~= decimal(b as nat));
            lemma_decimal_injective(a as nat, b as nat);
        }
    }
    lemma_map_size(x, y, f);
    let names = fs.map_values(|g: SavedFilter| g.name@);
    assert(y.subset_of(names.to_set())) by {
        assert forall|s: Seq<char>| y.contains(s) implies names.to_set().contains(s) by {
            let n = choose|n: int| x.contains(n) && f(n) == s;
            assert(name_taken(fs, suffixed(base, n as nat)));
            let i = choose|i: int| 0 <= i < fs.len() && #[trigger] fs[i].name@ == suffixed(base, n as nat);
            assert(names[i] == s);
        }
    }
    lemma_len_subset(y, names.to_set());
    names.lemma_cardinality_of_set();
}

/// `base` when no filter carries it, otherwise `base` with the least suffix from 2 on that
/// gives a free name.
pub fn spare_named(base: &FilterName, filters: &[SavedFilter]) -> (r: FilterName)
    requires
        names_sorted(filters@),
        filters@.len() < 0xffff_ffff_ffff_fff0,
    ensures
        spared(filters@, base@, r@),
{
    if !taken(base, filters) {
        return base.copy();
    }
    let stem = chars_of(base.as_str());
    let mut suffix: u64 = 2;
    loop
        invariant
            names_sorted(filters@),
            filters@.len() < 0xffff_ffff_ffff_fff0,
            valid_name(stem@),
            stem@ == base@,
            name_taken(filters@, base@),
            2 <= suffix <= filters@.len() + 2,
            forall|m: nat| 2 <= m < suffix ==> name_taken(filters@, #[trigger] suffixed(base@, m)),
        decreases filters@.len() + 2 - suffix,
    {
        let mut raw = stem.clone();
        raw.push(' ');
        let digits = decimal_of(suffix);
        let mut k: usize = 0;
        let ghost front = raw@;
        while k < digits.len()
            invariant
                k <= digits@.len(),
                raw@ == front + digits@.take(k as int),
            decreases digits.len() - k,
        {
            raw.push(digits[k]);
            assert(raw@ =~= front + digits@.take(k + 1));
            k = k + 1;
        }
        proof {
            assert(digits@.take(k as int) =~= digits@);
            assert(raw@ =~= suffixed(base@, suffix as nat));
            lemma_decimal_digits(suffix as nat);
            crate::text::lemma_decimal_len(suffix as nat);
            lemma_valid_push_word(stem@, decimal(suffix as nat));
        }
        let candidate = FilterName::from_valid(&raw);
        if !taken(&candidate, filters) {
            return candidate;
        }
        proof {
            assert forall|m: nat| 2 <= m < suffix + 1 implies name_taken(filters@, #[trigger] suffixed(base@, m)) by {
                if m == suffix {
                    assert(candidate@ == suffixed(base@, m));
                }
            }
            lemma_taken_suffixes_fit(filters@, base@, suffix + 1);
        }
        suffix = suffix.saturating_add(1);
    }
}

/// The first `limit` characters of `text`, with `…` appended when more followed.
pub fn clip(text: &[char], limit: usize) -> (r: Vec<char>)
    ensures
        r@ == clipped(text@, limit as nat),
{
    let mut out: Vec<char> = Vec::new();
    let mut k: usize = 0;
    while k < text.len() && k < limit
        invariant
            k <= text@.len(),
            k <= limit,
            out@ == text@.take(k as int),
        decreases text.len() - k,
    {
        out.push(text[k]);
        assert(out@ =~= text@.take(k + 1));
        k = k + 1;
    }
    if k < text.len() {
        out.push('…');
    } else {
        assert(text@.take(k as int) =~= text@);
    }
    out
}

/// The text a new filter's name grows from.
pub fn stem(query: &Query) -> (r: String)
    ensures
        r@ == stem_text(query@),
{
    let text = chars_of(query.to_text().as_str());
    let chosen: Vec<char> = if text.len() == 0 {
        let v: Vec<char> = vec!['n', 'e', 'u', 't', 'r', 'a', 'l'];
        assert(v@ =~= neutral_name());
        v
    } else {
        text
    };
    string_from(&clip(&chosen, 48))
}

/// A free name for a copy of `query`: its stem, or `neutral` when the stem has no word,
/// made unique by `spare_named`.
pub fn spare(query: &Query, filters: &[SavedFilter]) -> (r: FilterName)
    requires
        names_sorted(filters@),
        filters@.len() < 0xffff_ffff_ffff_fff0,
    ensures
        spared(filters@, spare_base(query@), r@),
{
    let text = stem(query);
    let base = match FilterName::forge(text.as_str()) {
        Some(name) => name,
        None => FilterName::neutral(),
    };
    assert(base@ == spare_base(query@));
    spare_named(&base, filters)
}

/// The name `spare_named` settles on is free.
pub proof fn lemma_spared_is_free(fs: Seq<SavedFilter>, base: Seq<char>, r: Seq<char>)
    requires
        spared(fs, base, r),
    ensures
        !name_taken(fs, r),
{
    if name_taken(fs, base) {
        let n = choose|n: nat| least_free_suffix(fs, base, n) && r == #[trigger] suffixed(base, n);
    }
}

/// Sorting keeps every name it was given and leaves each one once.
pub proof fn lemma_sorted_names_unique(rs: Seq<SavedFilter>, i: int, j: int)
    requires
        names_sorted(rs),
        0 <= i < rs.len(),
        0 <= j < rs.len(),
        i != j,
    ensures
        rs[i].name@ != rs[j].name@,
{
    if i < j {
        lemma_seq_lt_irreflexive(rs[i].name@);
        assert(seq_lt(rs[i].name@, rs[j].name@));
    } else {
        lemma_seq_lt_irreflexive(rs[j].name@);
        assert(seq_lt(rs[j].name@, rs[i].name@));
    }
}

} // verus!
