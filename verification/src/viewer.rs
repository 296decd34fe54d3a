//! The full-image viewer's decisions: which post a step lands on, and whether to fetch
//! a post's full image.
use vstd::prelude::*;

use crate::model::{first_url, PostId, PostRecord};
use crate::text::{chars_of, decimal, decimal_of, string_from};

verus! {

/// The first place of post `id` among `posts`.
pub open spec fn first_slot(posts: Seq<PostRecord>, id: PostId) -> Option<int>
    decreases posts.len(),
{
    if posts.len() == 0 {
        None
    } else if posts[0].id == id {
        Some(0)
    } else {
        match first_slot(posts.drop_first(), id) {
            Some(k) => Some(k + 1),
            None => None,
        }
    }
}

/// `slot + step`, kept between the first and the last place.
pub open spec fn stepped(slot: int, step: int, len: int) -> int {
    let moved = if slot + step < 0 { 0 } else { slot + step };
    if moved > len - 1 { len - 1 } else { moved }
}

/// Where stepping `step` posts from post `current` lands: nowhere when the post is not
/// listed or the step ends on it again.
pub open spec fn zoom_step(posts: Seq<PostRecord>, current: PostId, step: int) -> Option<int> {
    match first_slot(posts, current) {
        Some(slot) => {
            let t = stepped(slot, step, posts.len() as int);
            if posts[t].id == current { None } else { Some(t) }
        },
        None => None,
    }
}

proof fn lemma_first_slot_bounds(posts: Seq<PostRecord>, id: PostId)
    ensures
        first_slot(posts, id) matches Some(k) ==> 0 <= k < posts.len() && posts[k].id == id,
    decreases posts.len(),
{
    if posts.len() > 0 && posts[0].id != id {
        lemma_first_slot_bounds(posts.drop_first(), id);
    }
}

fn find_slot(posts: &[PostRecord], id: PostId) -> (r: Option<usize>)
    ensures
        match first_slot(posts@, id) {
            Some(k) => r == Some(k as usize),
            None => r is None,
        },
{
    let mut i: usize = 0;
    assert(posts@.skip(0) =~= posts@);
    while i < posts.len()
        invariant
            i <= posts@.len(),
            first_slot(posts@, id) == match first_slot(posts@.skip(i as int), id) {
                Some(k) => Some(k + i),
                None => None,
            },
            forall|j: int| 0 <= j < i ==> posts@[j].id != id,
        decreases posts.len() - i,
    {
        assert(posts@.skip(i as int).drop_first() =~= posts@.skip(i + 1));
        if posts[i].id == id {
            assert(posts@.skip(i as int)[0] == posts@[i as int]);
            return Some(i);
        }
        assert(posts@.skip(i as int)[0] == posts@[i as int]);
        i = i + 1;
    }
    assert(posts@.skip(i as int).len() == 0);
    None
}

/// The place a viewer step of `step` posts from `current` lands on, if it moves.
pub fn zoom_target(posts: &[PostRecord], current: PostId, step: i32) -> (r: Option<usize>)
    ensures
        match zoom_step(posts@, current, step as int) {
            Some(t) => r == Some(t as usize),
            None => r is None,
        },
{
    proof { lemma_first_slot_bounds(posts@, current); }
    let slot = match find_slot(posts, current) {
        Some(slot) => slot,
        None => return None,
    };
    let last = posts.len() - 1;
    let target: usize = if step < 0 {
        let back = (0i64 - step as i64) as usize;
        if back > slot { 0 } else { slot - back }
    } else {
        let ahead = step as usize;
        if ahead > last - slot { last } else { slot + ahead }
    };
    if posts[target].id == current {
        None
    } else {
        Some(target)
    }
}

/// `#<id> has no full image URL`.
pub open spec fn no_full_url(id: PostId) -> Seq<char> {
    seq!['#'] + decimal(id.0 as nat) + " has no full image URL"@
}

/// Whether to fetch a post's full image.
#[derive(Debug)]
pub enum FullRequest {
    /// The image is loaded, on its way, or failed before: nothing to do.
    Skip,
    /// The post offers no full image; the notice says so.
    NoUrl { notice: String },
    /// Fetch the image from this URL.
    Fetch { url: String },
}

/// Decides a full-image fetch for `post`; `known` says the image is already loaded, on
/// its way, or failed before.
pub fn full_request(post: &PostRecord, known: bool) -> (r: FullRequest)
    ensures
        if known {
            r is Skip
        } else {
            match first_url(post.full_prefs()) {
                Some(u) => r matches FullRequest::Fetch { url } && url@ == u,
                None => r matches FullRequest::NoUrl { notice } && notice@ == no_full_url(post.id),
            }
        },
{
    if known {
        return FullRequest::Skip;
    }
    match post.full_url() {
        Some(url) => FullRequest::Fetch { url: String::from_str(url) },
        None => {
            let mut out: Vec<char> = vec!['#'];
            let digits = decimal_of(post.id.0 as u64);
            let tail = chars_of(" has no full image URL");
            let mut i: usize = 0;
            while i < digits.len()
                invariant
                    i <= digits@.len(),
                    out@ == seq!['#'] + digits@.take(i as int),
                decreases digits.len() - i,
            {
                out.push(digits[i]);
                assert(out@ =~= seq!['#'] + digits@.take(i + 1));
                i = i + 1;
            }
            assert(digits@.take(i as int) =~= digits@);
            let ghost mid = out@;
            let mut j: usize = 0;
            while j < tail.len()
                invariant
                    j <= tail@.len(),
                    out@ == mid + tail@.take(j as int),
                decreases tail.len() - j,
            {
                out.push(tail[j]);
                assert(out@ =~= mid + tail@.take(j + 1));
                j = j + 1;
            }
            assert(tail@.take(j as int) =~= tail@);
            FullRequest::NoUrl { notice: string_from(&out) }
        },
    }
}

} // verus!
