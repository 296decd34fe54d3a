//! Warming the remote search ahead of the gallery: which pages to ask for next, one
//! request at a time, never past the last page the search serves.
use vstd::prelude::*;

use crate::model::{sort_label, Sort};
use crate::text::{chars_of, decimal, decimal_of, string_from};
use crate::workbench::WarmKey;

verus! {

/// Pages asked for when nothing asks for more.
pub const AUTO_WARM_PAGES: u32 = 1;

/// The last page number the remote search serves.
pub const DANBOORU_SEARCH_PAGE_LIMIT: u32 = 1000;

/// Where the warm-up of the current key stands.
#[derive(Clone, Copy, Debug, PartialEq, Eq, Structural)]
pub enum WarmState {
    Idle,
    InFlight,
    Exhausted,
}

/// The warm-up of one query and sort: the next page to ask for, how many pages a request
/// asks for, and whether a request is out.
#[derive(Debug)]
pub struct WarmPager {
    pub key: WarmKey,
    pub next_page: u32,
    pub stride: u32,
    pub state: WarmState,
}

/// What the pager asks the worker to do.
#[derive(Debug)]
pub enum WarmOrder {
    /// Nothing to send.
    Hold,
    /// The next page lies past the last one served; the warm-up stops.
    Capped { status: String },
    /// Fetch `pages` pages from `first_page` on.
    Send { first_page: u32, pages: u32, status: String },
}

/// What a finished request leaves for the status line and whether to go on.
#[derive(Debug)]
pub struct WarmUpdate {
    pub status: Option<String>,
    pub again: bool,
}

pub open spec fn same_key(a: &WarmKey, b: &WarmKey) -> bool {
    a.query@ == b.query@ && a.sort == b.sort
}

/// `WarmKey::label`: the sort, a space, and the query text or `∅`.
pub open spec fn key_label(k: &WarmKey) -> Seq<char> {
    sort_label(k.sort) + seq![' '] + if k.query@.len() == 0 { seq!['∅'] } else { k.query@ }
}

/// `a + b`, or `u32::MAX` when that does not fit.
pub open spec fn sat_add(a: u32, b: u32) -> u32 {
    if a + b > u32::MAX { u32::MAX } else { (a + b) as u32 }
}

/// `a - b`, or 0 when `b` exceeds `a`.
pub open spec fn sat_sub(a: u32, b: u32) -> u32 {
    if b > a { 0 } else { (a - b) as u32 }
}

pub open spec fn max_u32(a: u32, b: u32) -> u32 {
    if a >= b { a } else { b }
}

pub open spec fn min_u32(a: u32, b: u32) -> u32 {
    if a <= b { a } else { b }
}

/// Page, stride and state once the pager follows `key`: kept for the same key, fresh
/// for another.
pub open spec fn aligned(p: &WarmPager, key: &WarmKey) -> (u32, u32, WarmState) {
    if same_key(&p.key, key) {
        (p.next_page, p.stride, p.state)
    } else {
        (1, AUTO_WARM_PAGES, WarmState::Idle)
    }
}

/// How many pages a request from `first` asks for with stride `stride`.
pub open spec fn batch(stride: u32, first: u32) -> u32 {
    min_u32(max_u32(stride, 1), (DANBOORU_SEARCH_PAGE_LIMIT - first + 1) as u32)
}

/// What `dispatch(key, pages)` does: `q` is the pager after, `r` the order.
pub open spec fn dispatched(p: &WarmPager, key: &WarmKey, pages: u32, q: &WarmPager, r: &WarmOrder) -> bool {
    let (next, stride, state) = aligned(p, key);
    let stride2 = max_u32(stride, pages);
    &&& same_key(&q.key, key)
    &&& q.next_page == next
    &&& if pages == 0 {
        q.stride == stride && q.state == state && r is Hold
    } else if state != WarmState::Idle {
        q.stride == stride2 && q.state == state && r is Hold
    } else if next > DANBOORU_SEARCH_PAGE_LIMIT {
        &&& q.stride == stride2
        &&& q.state == WarmState::Exhausted
        &&& r matches WarmOrder::Capped { status }
        &&& status@ == "query warm hit Danbooru page cap after "@ + key_label(key) + " p"@ + decimal(DANBOORU_SEARCH_PAGE_LIMIT as nat)
    } else {
        let n = batch(stride2, next);
        &&& q.stride == stride2
        &&& q.state == WarmState::InFlight
        &&& r matches WarmOrder::Send { first_page, pages: sent, status }
        &&& first_page == next
        &&& sent == n
        &&& status@ == "query warm "@ + key_label(key) + " p"@ + decimal(next as nat) + "..p"@
            + decimal(sat_add(next, sat_sub(n, 1)) as nat)
    }
}

/// What a finished request of `event` does to the pager `p`, giving `q` and the update.
pub open spec fn absorbed(
    p: &WarmPager,
    event: &WarmKey,
    first_page: u32,
    pages: u32,
    posts: usize,
    exhausted: bool,
    q: &WarmPager,
    u: &WarmUpdate,
) -> bool {
    &&& same_key(&q.key, &p.key)
    &&& q.stride == p.stride
    &&& if same_key(&p.key, event) {
        let next = max_u32(p.next_page, sat_add(first_page, pages));
        &&& q.next_page == next
        &&& q.state == (if exhausted { WarmState::Exhausted } else { WarmState::Idle })
        &&& u.status matches Some(s)
        &&& s@ == if exhausted {
            "query warm exhausted after "@ + key_label(event) + " p"@ + decimal(sat_add(first_page, sat_sub(pages, 1)) as nat)
        } else {
            "query warm +"@ + decimal(posts as nat) + " "@ + key_label(event) + "; next p"@ + decimal(next as nat)
        }
        &&& u.again == !exhausted
    } else {
        q.next_page == p.next_page && q.state == p.state && u.status is None && !u.again
    }
}

/// A warm-up asked for a key other than its own starts that key over: it asks from page
/// 1, as many pages as asked for (at most the pages served), and as nothing is out for
/// the new key the first ask is sent at once. Asked for its own key it keeps its
/// place.
pub proof fn lemma_new_key_starts_over(p: WarmPager, key: WarmKey, pages: u32, q: WarmPager, r: WarmOrder)
    requires
        dispatched(&p, &key, pages, &q, &r),
    ensures
        !same_key(&p.key, &key) ==> q.next_page == 1,
        !same_key(&p.key, &key) && pages > 0 ==> (r matches WarmOrder::Send { first_page, pages: n, .. }
            && first_page == 1 && n == (if pages < DANBOORU_SEARCH_PAGE_LIMIT { pages } else { DANBOORU_SEARCH_PAGE_LIMIT })),
        same_key(&p.key, &key) ==> q.next_page == p.next_page,
{
}

fn key_matches(a: &WarmKey, b: &WarmKey) -> (r: bool)
    ensures
        r == same_key(a, b),
{
    let x = chars_of(a.query.as_str());
    let y = chars_of(b.query.as_str());
    crate::model::same_chars(&x, &y) && a.sort == b.sort
}

pub(crate) fn push_text(out: &mut Vec<char>, more: &str)
    ensures
        final(out)@ == old(out)@ + more@,
{
    let chars = chars_of(more);
    let ghost start = out@;
    let mut i: usize = 0;
    while i < chars.len()
        invariant
            i <= chars@.len(),
            chars@ == more@,
            out@ == start + chars@.take(i as int),
        decreases chars.len() - i,
    {
        out.push(chars[i]);
        assert(out@ =~= start + chars@.take(i + 1));
        i = i + 1;
    }
    assert(chars@.take(i as int) =~= chars@);
}

pub(crate) fn push_number(out: &mut Vec<char>, n: u64)
    ensures
        final(out)@ == old(out)@ + decimal(n as nat),
{
    let digits = decimal_of(n);
    let ghost start = out@;
    let mut i: usize = 0;
    while i < digits.len()
        invariant
            i <= digits@.len(),
            digits@ == decimal(n as nat),
            out@ == start + digits@.take(i as int),
        decreases digits.len() - i,
    {
        out.push(digits[i]);
        assert(out@ =~= start + digits@.take(i + 1));
        i = i + 1;
    }
    assert(digits@.take(i as int) =~= digits@);
}

fn saturating_add(a: u32, b: u32) -> (r: u32)
    ensures
        r == sat_add(a, b),
{
    if a as u64 + b as u64 > u32::MAX as u64 {
        u32::MAX
    } else {
        a + b
    }
}

fn saturating_sub(a: u32, b: u32) -> (r: u32)
    ensures
        r == sat_sub(a, b),
{
    if b > a {
        0
    } else {
        a - b
    }
}

impl WarmPager {
    /// A warm-up of `key` that has asked for nothing yet.
    pub fn new(key: WarmKey) -> (r: WarmPager)
        ensures
            same_key(&r.key, &key),
            r.next_page == 1,
            r.stride == AUTO_WARM_PAGES,
            r.state == WarmState::Idle,
    {
        WarmPager { key, next_page: 1, stride: AUTO_WARM_PAGES, state: WarmState::Idle }
    }

    /// Follows `key`: a different key starts over from the first page.
    pub fn align(&mut self, key: WarmKey)
        ensures
            same_key(&final(self).key, &key),
            (final(self).next_page, final(self).stride, final(self).state) == aligned(old(self), &key),
    {
        if !key_matches(&self.key, &key) {
            self.key = key;
            self.next_page = 1;
            self.stride = AUTO_WARM_PAGES;
            self.state = WarmState::Idle;
        }
    }

    /// Asks for `pages` more pages of `key`: at most one request is out at a time, the
    /// stride only grows, and no request reaches past the last page served.
    pub fn dispatch(&mut self, key: WarmKey, pages: u32) -> (r: WarmOrder)
        ensures
            dispatched(old(self), &key, pages, final(self), &r),
    {
        let label = key.label();
        self.align(key);
        if pages == 0 {
            return WarmOrder::Hold;
        }
        if pages > self.stride {
            self.stride = pages;
        }
        if self.state != WarmState::Idle {
            return WarmOrder::Hold;
        }
        let first_page = self.next_page;
        if first_page > DANBOORU_SEARCH_PAGE_LIMIT {
            self.state = WarmState::Exhausted;
            let mut out = chars_of("query warm hit Danbooru page cap after ");
            push_text(&mut out, label.as_str());
            push_text(&mut out, " p");
            push_number(&mut out, DANBOORU_SEARCH_PAGE_LIMIT as u64);
            return WarmOrder::Capped { status: string_from(&out) };
        }
        let wide = if self.stride > 1 { self.stride } else { 1 };
        let room = DANBOORU_SEARCH_PAGE_LIMIT - first_page + 1;
        let pages = if wide < room { wide } else { room };
        self.state = WarmState::InFlight;
        let last_page = saturating_add(first_page, saturating_sub(pages, 1));
        let mut out = chars_of("query warm ");
        push_text(&mut out, label.as_str());
        push_text(&mut out, " p");
        push_number(&mut out, first_page as u64);
        push_text(&mut out, "..p");
        push_number(&mut out, last_page as u64);
        WarmOrder::Send { first_page, pages, status: string_from(&out) }
    }

    /// The worker could not take the request: the warm-up waits for the next ask.
    pub fn send_failed(&mut self) -> (r: String)
        ensures
            same_key(&final(self).key, &old(self).key),
            final(self).next_page == old(self).next_page,
            final(self).stride == old(self).stride,
            final(self).state == WarmState::Idle,
            r@ == "query warm fault"@,
    {
        self.state = WarmState::Idle;
        String::from_str("query warm fault")
    }

    /// Takes in a finished request; one of another key changes nothing.
    pub fn warmed(&mut self, event: &WarmKey, first_page: u32, pages: u32, posts: usize, exhausted: bool) -> (r: WarmUpdate)
        ensures
            absorbed(old(self), event, first_page, pages, posts, exhausted, final(self), &r),
    {
        if !key_matches(&self.key, event) {
            return WarmUpdate { status: None, again: false };
        }
        self.state = if exhausted { WarmState::Exhausted } else { WarmState::Idle };
        let reach = saturating_add(first_page, pages);
        if reach > self.next_page {
            self.next_page = reach;
        }
        let label = event.label();
        let status = if exhausted {
            let last_page = saturating_add(first_page, saturating_sub(pages, 1));
            let mut out = chars_of("query warm exhausted after ");
            push_text(&mut out, label.as_str());
            push_text(&mut out, " p");
            push_number(&mut out, last_page as u64);
            string_from(&out)
        } else {
            let mut out = chars_of("query warm +");
            push_number(&mut out, posts as u64);
            push_text(&mut out, " ");
            push_text(&mut out, label.as_str());
            push_text(&mut out, "; next p");
            push_number(&mut out, self.next_page as u64);
            string_from(&out)
        };
        WarmUpdate { status: Some(status), again: !exhausted }
    }
}

/// A request the pager sends starts on a real page, asks for at least one page, and ends
/// on or before the last page the search serves.
pub proof fn lemma_sent_within_limit(p: &WarmPager, key: &WarmKey, pages: u32, q: &WarmPager, r: &WarmOrder)
    requires
        p.next_page >= 1,
        dispatched(p, key, pages, q, r),
    ensures
        r matches WarmOrder::Send { first_page, pages: sent, .. } ==> {
            &&& 1 <= *first_page
            &&& 1 <= *sent
            &&& *first_page + *sent - 1 <= DANBOORU_SEARCH_PAGE_LIMIT
        },
{
}

/// While a request is out, asking again sends nothing.
pub proof fn lemma_one_request_at_a_time(p: &WarmPager, key: &WarmKey, pages: u32, q: &WarmPager, r: &WarmOrder)
    requires
        same_key(&p.key, key),
        p.state == WarmState::InFlight,
        dispatched(p, key, pages, q, r),
    ensures
        r is Hold,
        q.state == WarmState::InFlight,
{
}

/// For the same key the next page never moves back, and the first page stays the floor.
pub proof fn lemma_next_page_never_falls(
    p: &WarmPager,
    event: &WarmKey,
    first_page: u32,
    pages: u32,
    posts: usize,
    exhausted: bool,
    q: &WarmPager,
    u: &WarmUpdate,
)
    requires
        p.next_page >= 1,
        absorbed(p, event, first_page, pages, posts, exhausted, q, u),
    ensures
        q.next_page >= p.next_page,
        q.next_page >= 1,
{
}

} // verus!
