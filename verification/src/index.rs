//! The figures the local index reports about itself and its pending fact merges.
use vstd::prelude::*;

use crate::model::{tag_text, PostId, PostRecord, RatingClass};
use crate::text::{chars_of, is_ws, string_from, to_lower, trimmed};

verus! {

/// How much pending fact work one merge may take on.
#[derive(Clone, Copy, Debug, PartialEq, Eq, Structural)]
pub struct FactMergeBudget {
    pub batches: usize,
    pub bytes: usize,
}

impl FactMergeBudget {
    /// The budget of steady background merging: 128 batches, 16 MiB.
    pub fn steady() -> (r: FactMergeBudget)
        ensures
            r.batches == 128,
            r.bytes == 16 * 1024 * 1024,
    {
        FactMergeBudget { batches: 128, bytes: 16 * 1024 * 1024 }
    }
}

/// What one merge did.
#[derive(Clone, Copy, Debug, PartialEq, Eq, Structural)]
pub struct FactMerge {
    pub batches: usize,
    pub bytes: usize,
    pub groups: usize,
}

impl Default for FactMerge {
    fn default() -> (r: FactMerge)
        ensures
            r.batches == 0 && r.bytes == 0 && r.groups == 0,
    {
        FactMerge { batches: 0, bytes: 0, groups: 0 }
    }
}

/// The index's size and crawl position.
#[derive(Debug)]
pub struct CacheStats {
    pub posts: u64,
    pub tag_chunks: u64,
    pub pending_fact_batches: u64,
    pub newest: Option<PostId>,
    pub crawl_before: Option<PostId>,
    pub ratings: Vec<(RatingClass, u64)>,
}

impl Default for CacheStats {
    fn default() -> (r: CacheStats)
        ensures
            r.posts == 0 && r.tag_chunks == 0 && r.pending_fact_batches == 0,
            r.newest is None && r.crawl_before is None,
            r.ratings@.len() == 0,
    {
        CacheStats {
            posts: 0,
            tag_chunks: 0,
            pending_fact_batches: 0,
            newest: None,
            crawl_before: None,
            ratings: Vec::new(),
        }
    }
}

/// Posting chunks hold `2^16` consecutive post ids.
pub const CHUNK_BITS: u32 = 16;

/// The chunk that holds a post id.
pub fn chunk_of(id: u32) -> (r: u32)
    ensures
        r == id / 0x1_0000,
{
    let r = id >> CHUNK_BITS;
    assert(id >> 16u32 == id / 0x1_0000) by (bit_vector);
    r
}

pub open spec fn hex_lower(n: int) -> char {
    if n < 10 { ((48 + n) as u8) as char } else { ((87 + n) as u8) as char }
}

/// `n` as eight lower-case hex digits.
pub open spec fn hex8(n: u32) -> Seq<char> {
    Seq::new(8, |k: int| hex_lower(((n as int) / pow16(7 - k)) % 16))
}

pub open spec fn pow16(k: int) -> int
    decreases k,
{
    if k <= 0 { 1 } else { 16 * pow16(k - 1) }
}

/// The key of one chunk of a posting list: the list's key, a NUL, and the chunk in
/// eight lower-case hex digits.
pub fn chunk_key(key: &str, chunk: u32) -> (r: String)
    ensures
        r@ == key@ + seq!['\0'] + hex8(chunk),
{
    let mut out = chars_of(key);
    out.push('\0');
    let ghost front = out@;
    let mut k: u32 = 0;
    let mut shift: u32 = 28;
    while k < 8
        invariant
            k <= 8,
            k < 8 ==> shift == 28 - 4 * k,
            out@ == front + hex8(chunk).take(k as int),
        decreases 8 - k,
    {
        let nibble: u32 = (chunk >> shift) & 15;
        proof { lemma_nibble(chunk, k); }
        let c: char = if nibble < 10 { (48u8 + nibble as u8) as char } else { (87u8 + nibble as u8) as char };
        out.push(c);
        assert(out@ =~= front + hex8(chunk).take(k + 1));
        k = k + 1;
        if k < 8 {
            shift = shift - 4;
        }
    }
    assert(hex8(chunk).take(8) =~= hex8(chunk));
    string_from(&out)
}

proof fn lemma_nibble(n: u32, k: u32)
    requires
        k < 8,
    ensures
        (n >> (28 - 4 * k) as u32) & 15 == ((n as int) / pow16(7 - k)) % 16,
{
    reveal_with_fuel(pow16, 8);
    let s: u32 = (28 - 4 * k) as u32;
    if k == 0 {
        assert((n >> 28u32) & 15 == (n / 0x1000_0000) % 16) by (bit_vector);
    } else if k == 1 {
        assert((n >> 24u32) & 15 == (n / 0x100_0000) % 16) by (bit_vector);
    } else if k == 2 {
        assert((n >> 20u32) & 15 == (n / 0x10_0000) % 16) by (bit_vector);
    } else if k == 3 {
        assert((n >> 16u32) & 15 == (n / 0x1_0000) % 16) by (bit_vector);
    } else if k == 4 {
        assert((n >> 12u32) & 15 == (n / 0x1000) % 16) by (bit_vector);
    } else if k == 5 {
        assert((n >> 8u32) & 15 == (n / 0x100) % 16) by (bit_vector);
    } else if k == 6 {
        assert((n >> 4u32) & 15 == (n / 0x10) % 16) by (bit_vector);
    } else {
        assert((n >> 0u32) & 15 == n % 16) by (bit_vector);
    }
}

/// The common prefix of all chunk keys of a posting list: its key and a NUL.
pub fn chunk_prefix(key: &str) -> (r: String)
    ensures
        r@ == key@ + seq!['\0'],
{
    let mut out = chars_of(key);
    out.push('\0');
    string_from(&out)
}

/// The sort key of a score: scores in order, then ids; the score is shifted so that the
/// order of `i32` becomes the order of `u64`.
pub fn sort_key_i32(score: i32, id: PostId) -> (r: u64)
    ensures
        r as int == (score as int + 0x8000_0000) * 0x1_0000_0000 + id.0 as int,
{
    let shifted: u64 = (score as i64 + 0x8000_0000i64) as u64;
    let id32: u64 = id.0 as u64;
    assert(shifted < 0x1_0000_0000);
    let r = (shifted << 32u64) | id32;
    assert(shifted < 0x1_0000_0000 && id32 < 0x1_0000_0000 ==> (shifted << 32u64) | id32 == shifted * 0x1_0000_0000 + id32) by (bit_vector);
    r
}

/// The sort key of a count: counts in order, then ids.
pub fn sort_key_u32(count: u32, id: PostId) -> (r: u64)
    ensures
        r as int == count as int * 0x1_0000_0000 + id.0 as int,
{
    let c: u64 = count as u64;
    let id32: u64 = id.0 as u64;
    let r = (c << 32u64) | id32;
    assert(c < 0x1_0000_0000 && id32 < 0x1_0000_0000 ==> (c << 32u64) | id32 == c * 0x1_0000_0000 + id32) by (bit_vector);
    r
}

/// Stores the sort key of a post at its id, growing the table with zeros; no key is 0.
pub fn set_sort_key(keys: &mut Vec<u64>, id: PostId, key: Option<u64>)
    requires
        id.0 < usize::MAX,
    ensures
        final(keys)@.len() == if old(keys)@.len() > id.0 as int { old(keys)@.len() as int } else { id.0 as int + 1 },
        final(keys)@[id.0 as int] == match key { Some(k) => k, None => 0u64 },
        forall|i: int| 0 <= i < final(keys)@.len() && i != id.0 as int ==>
            #[trigger] final(keys)@[i] == if i < old(keys)@.len() { old(keys)@[i] } else { 0u64 },
{
    let slot = id.0 as usize;
    if keys.len() <= slot {
        keys.resize(slot + 1, 0);
    }
    keys.set(slot, match key { Some(k) => k, None => 0 });
    proof {
        assert forall|i: int| 0 <= i < old(keys)@.len() implies #[trigger] old(keys)@[i] == keys@[i] || i == slot by {
            if old(keys)@.len() <= slot {
            }
        }
    }
}

/// A tag-completion prefix: trimmed, ASCII lower-cased, spaces as underscores; `None`
/// when nothing is left.
pub fn normalize_prefix(prefix: &str) -> (r: Option<String>)
    ensures
        match r {
            Some(s) => s@ == tag_text(prefix@) && s@.len() > 0,
            None => tag_text(prefix@).len() == 0,
        },
{
    let chars = chars_of(prefix);
    let t = trimmed(&chars);
    let mut out: Vec<char> = Vec::new();
    let mut i: usize = 0;
    while i < t.len()
        invariant
            i <= t@.len(),
            t@ == crate::text::trim(prefix@),
            out@ == crate::model::underscored(crate::text::lower_all(t@.take(i as int))),
        decreases t.len() - i,
    {
        let c = to_lower(t[i]);
        out.push(if c == ' ' { '_' } else { c });
        assert(out@ =~= crate::model::underscored(crate::text::lower_all(t@.take(i + 1))));
        i = i + 1;
    }
    assert(t@.take(i as int) =~= t@);
    if out.len() == 0 {
        None
    } else {
        Some(string_from(&out))
    }
}

/// The rating a post is indexed under: its class, when the post is indexable.
pub fn indexed_rating(post: Option<&PostRecord>) -> (r: Option<RatingClass>)
    ensures
        match post {
            Some(p) => r == if forall|i: int| 0 <= i < p.tags@.len() ==> p.tags@[i]@ != "animated"@ {
                crate::model::rating_class_of(&p.rating)
            } else {
                None
            },
            None => r is None,
        },
{
    match post {
        Some(p) => {
            if p.indexable() {
                p.rating.class()
            } else {
                None
            }
        },
        None => None,
    }
}

} // verus!
