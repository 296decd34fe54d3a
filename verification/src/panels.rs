//! Text typed into the tag entry.
use vstd::prelude::*;

use crate::text::{chars_of, control, is_cc, is_ws, string_from, whitespace};

verus! {

/// The characters of `s` that are not control characters, in order.
pub open spec fn printable(s: Seq<char>) -> Seq<char> {
    s.filter(|c: char| !is_cc(c))
}

/// The seed a tag search starts from: the typed text without control characters, when
/// something other than white space is left.
pub open spec fn seed_of(s: Seq<char>) -> Option<Seq<char>> {
    if exists|k: int| 0 <= k < printable(s).len() && !is_ws(#[trigger] printable(s)[k]) {
        Some(printable(s))
    } else {
        None
    }
}

/// The typed text without control characters; `None` when that leaves only white space.
pub fn tag_seed(text: &str) -> (r: Option<String>)
    ensures
        match seed_of(text@) {
            Some(s) => r matches Some(t) && t@ == s,
            None => r is None,
        },
{
    let chars = chars_of(text);
    let mut seed: Vec<char> = Vec::new();
    let mut i: usize = 0;
    while i < chars.len()
        invariant
            i <= chars@.len(),
            chars@ == text@,
            seed@ == printable(chars@.take(i as int)),
        decreases chars.len() - i,
    {
        let c = chars[i];
        proof {
            let pre = chars@.take(i as int);
            assert(chars@.take(i + 1) =~= pre.push(c));
            pre.lemma_filter_push(c, |c: char| !is_cc(c));
        }
        if !control(c) {
            seed.push(c);
        }
        i = i + 1;
    }
    assert(chars@.take(i as int) =~= chars@);
    let mut k: usize = 0;
    while k < seed.len()
        invariant
            k <= seed@.len(),
            seed@ == printable(text@),
            forall|j: int| 0 <= j < k ==> is_ws(#[trigger] seed@[j]),
        decreases seed.len() - k,
    {
        if !whitespace(seed[k]) {
            return Some(string_from(&seed));
        }
        k = k + 1;
    }
    None
}

} // verus!
