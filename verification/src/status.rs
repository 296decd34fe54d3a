//! The status lines the workbench shows when the worker reports back.
use vstd::prelude::*;

use crate::index::FactMerge;
use crate::model::PostId;
use crate::text::{chars_of, decimal, string_from};
use crate::warm::{push_number, push_text};

verus! {

/// After a crawl step: the posts it took in and the id it continues before, or that it
/// reached an empty page.
pub open spec fn crawl_text(posts: usize, before: Option<PostId>) -> Seq<char> {
    match before {
        Some(b) => "crawl +"@ + decimal(posts as nat) + "; before #"@ + decimal(b.0 as nat),
        None => "crawl reached empty page"@,
    }
}

pub fn crawl_status(posts: usize, before: Option<PostId>) -> (r: String)
    ensures
        r@ == crawl_text(posts, before),
{
    match before {
        Some(b) => {
            let mut out = chars_of("crawl +");
            push_number(&mut out, posts as u64);
            push_text(&mut out, "; before #");
            push_number(&mut out, b.0 as u64);
            string_from(&out)
        },
        None => String::from_str("crawl reached empty page"),
    }
}

/// After merging pending posting facts: batches, KiB and predicates touched.
pub open spec fn merge_text(m: FactMerge) -> Seq<char> {
    "posting merge "@ + decimal(m.batches as nat) + " batches, "@ + decimal((m.bytes / 1024) as nat)
        + " KiB across "@ + decimal(m.groups as nat) + " predicates"@
}

pub fn merge_status(m: &FactMerge) -> (r: String)
    ensures
        r@ == merge_text(*m),
{
    let mut out = chars_of("posting merge ");
    push_number(&mut out, m.batches as u64);
    push_text(&mut out, " batches, ");
    push_number(&mut out, (m.bytes / 1024) as u64);
    push_text(&mut out, " KiB across ");
    push_number(&mut out, m.groups as u64);
    push_text(&mut out, " predicates");
    string_from(&out)
}

/// After a batch of image embeddings: how many were stored, and the faults when any.
pub open spec fn clip_text(stored: usize, faults: usize) -> Seq<char> {
    if faults == 0 {
        "embedded "@ + decimal(stored as nat) + " Jina CLIP images"@
    } else {
        "embedded "@ + decimal(stored as nat) + " Jina CLIP images; "@ + decimal(faults as nat)
            + " faults"@
    }
}

pub fn clip_status(stored: usize, faults: usize) -> (r: String)
    ensures
        r@ == clip_text(stored, faults),
{
    let mut out = chars_of("embedded ");
    push_number(&mut out, stored as u64);
    if faults == 0 {
        push_text(&mut out, " Jina CLIP images");
    } else {
        push_text(&mut out, " Jina CLIP images; ");
        push_number(&mut out, faults as u64);
        push_text(&mut out, " faults");
    }
    string_from(&out)
}

/// After a save: where the post went, or why it did not.
pub open spec fn save_text(id: PostId, outcome: Result<Seq<char>, Seq<char>>) -> Seq<char> {
    match outcome {
        Ok(path) => "saved #"@ + decimal(id.0 as nat) + " to "@ + path,
        Err(fault) => "save #"@ + decimal(id.0 as nat) + " failed: "@ + fault,
    }
}

pub fn save_status(id: PostId, outcome: Result<&str, &str>) -> (r: String)
    ensures
        r@ == save_text(id, match outcome { Ok(p) => Ok(p@), Err(f) => Err(f@) }),
{
    match outcome {
        Ok(path) => {
            let mut out = chars_of("saved #");
            push_number(&mut out, id.0 as u64);
            push_text(&mut out, " to ");
            push_text(&mut out, path);
            string_from(&out)
        },
        Err(fault) => {
            let mut out = chars_of("save #");
            push_number(&mut out, id.0 as u64);
            push_text(&mut out, " failed: ");
            push_text(&mut out, fault);
            string_from(&out)
        },
    }
}

} // verus!
