//! Tag completion under the tag entry: which prefix was last asked for, the answer that
//! came back for it, and which admitted suggestion the cursor is on.
use vstd::prelude::*;

use crate::text::chars_of;

verus! {

/// A step of the completion cursor.
#[derive(Clone, Copy, Debug, PartialEq, Eq, Structural)]
pub enum GroupCycle {
    Forward,
    Backward,
}

/// The suggestions last asked for (by prefix), the cursor among the admitted ones, and
/// the serial of the request whose answer is awaited.
#[derive(Debug)]
pub struct TagCompletion<T> {
    pub memo: Option<(String, Vec<T>)>,
    pub pick: usize,
    pub ticket: u64,
}

pub open spec fn memo_prefix<T>(memo: Option<(String, Vec<T>)>) -> Option<Seq<char>> {
    match memo {
        Some((p, _)) => Some(p@),
        None => None,
    }
}

pub open spec fn memo_hits<T>(memo: Option<(String, Vec<T>)>) -> Seq<T> {
    match memo {
        Some((_, hits)) => hits@,
        None => Seq::empty(),
    }
}

/// The cursor after one step among `n` admitted suggestions, wrapping at both ends.
pub open spec fn cycled(pick: nat, n: nat, cycle: GroupCycle) -> nat
    recommends
        n > 0,
{
    match cycle {
        GroupCycle::Forward => (pick + 1) % n,
        GroupCycle::Backward => if pick == 0 { (n - 1) as nat } else { (pick - 1) as nat },
    }
}

/// How many of the flags are set.
pub open spec fn count_true(s: Seq<bool>) -> nat
    decreases s.len(),
{
    if s.len() == 0 {
        0
    } else {
        count_true(s.drop_last()) + if s.last() { 1nat } else { 0nat }
    }
}

proof fn lemma_count_true_bound(s: Seq<bool>)
    ensures
        count_true(s) <= s.len(),
    decreases s.len(),
{
    if s.len() > 0 {
        lemma_count_true_bound(s.drop_last());
    }
}

fn same_text(a: &str, b: &str) -> (r: bool)
    ensures
        r == (a@ == b@),
{
    let x = chars_of(a);
    let y = chars_of(b);
    crate::model::same_chars(&x, &y)
}

impl<T> TagCompletion<T> {
    /// No suggestions and the cursor on the first.
    pub fn new() -> (r: TagCompletion<T>)
        ensures
            r.memo is None,
            r.pick == 0,
            r.ticket == 0,
    {
        TagCompletion { memo: None, pick: 0, ticket: 0 }
    }

    /// Forgets the suggestions; the awaited request stays awaited.
    pub fn clear(&mut self)
        ensures
            final(self).memo is None,
            final(self).pick == 0,
            final(self).ticket == old(self).ticket,
    {
        self.memo = None;
        self.pick = 0;
    }

    /// Asks for suggestions for `prefix` unless they were last asked for it. A new ask
    /// takes the next serial, keeps the suggestions shown so far until the answer comes,
    /// and puts the cursor on the first; it returns whether a request must go out.
    pub fn demand(&mut self, prefix: &str, serial: &mut u64) -> (r: bool)
        ensures
            if memo_prefix(old(self).memo) == Some(prefix@) {
                &&& !r
                &&& memo_prefix(final(self).memo) == memo_prefix(old(self).memo)
                &&& memo_hits(final(self).memo) == memo_hits(old(self).memo)
                &&& final(self).pick == old(self).pick
                &&& final(self).ticket == old(self).ticket
                &&& *final(serial) == *old(serial)
            } else {
                &&& r
                &&& *final(serial) == if *old(serial) == u64::MAX { u64::MAX } else { (*old(serial) + 1) as u64 }
                &&& final(self).ticket == *final(serial)
                &&& memo_prefix(final(self).memo) == Some(prefix@)
                &&& memo_hits(final(self).memo) == memo_hits(old(self).memo)
                &&& final(self).pick == 0
            },
    {
        let same = match &self.memo {
            Some((memo, _)) => same_text(memo.as_str(), prefix),
            None => false,
        };
        if same {
            return false;
        }
        *serial = if *serial == u64::MAX { u64::MAX } else { *serial + 1 };
        self.ticket = *serial;
        let kept = match self.memo.take() {
            Some((_, hits)) => hits,
            None => Vec::new(),
        };
        self.memo = Some((String::from_str(prefix), kept));
        self.pick = 0;
        true
    }

    /// Takes in the answer to request `ticket`; an answer to an older request, or one that
    /// arrives after the suggestions were forgotten, is dropped. The cursor stays on the
    /// same slot as far as the new list reaches.
    pub fn absorb(&mut self, ticket: u64, hits: Vec<T>) -> (r: bool)
        ensures
            r == (ticket == old(self).ticket && old(self).memo is Some),
            final(self).ticket == old(self).ticket,
            r ==> {
                &&& memo_prefix(final(self).memo) == memo_prefix(old(self).memo)
                &&& memo_hits(final(self).memo) == hits@
                &&& final(self).pick == if old(self).pick < hits@.len() { old(self).pick as int } else if hits@.len() == 0 { 0 } else { hits@.len() - 1 }
            },
            !r ==> {
                &&& memo_prefix(final(self).memo) == memo_prefix(old(self).memo)
                &&& memo_hits(final(self).memo) == memo_hits(old(self).memo)
                &&& final(self).pick == old(self).pick
            },
    {
        if ticket != self.ticket {
            return false;
        }
        match self.memo.take() {
            Some((prefix, _)) => {
                let last = if hits.len() == 0 { 0 } else { hits.len() - 1 };
                if self.pick > last {
                    self.pick = last;
                }
                self.memo = Some((prefix, hits));
                true
            },
            None => false,
        }
    }

    /// Moves the cursor among the `admitted` suggestions that pass the caller's filter and
    /// returns its slot: first clamped to the last one, then stepped by `cycle`. Nothing
    /// is chosen without suggestions or with none admitted.
    pub fn choose_pick(&mut self, admitted: usize, cycle: Option<GroupCycle>) -> (r: Option<usize>)
        ensures
            final(self).ticket == old(self).ticket,
            memo_prefix(final(self).memo) == memo_prefix(old(self).memo),
            memo_hits(final(self).memo) == memo_hits(old(self).memo),
            if old(self).memo is None || admitted == 0 {
                r is None && final(self).pick == old(self).pick
            } else {
                let clamped: nat = if old(self).pick < admitted { old(self).pick as nat } else { (admitted - 1) as nat };
                let moved: nat = match cycle {
                    Some(c) => cycled(clamped, admitted as nat, c),
                    None => clamped,
                };
                r == Some(moved as usize) && final(self).pick == moved && moved < admitted
            },
    {
        if self.memo.is_none() || admitted == 0 {
            return None;
        }
        if self.pick > admitted - 1 {
            self.pick = admitted - 1;
        }
        match cycle {
            Some(GroupCycle::Forward) => {
                self.pick = (self.pick + 1) % admitted;
            },
            Some(GroupCycle::Backward) => {
                self.pick = if self.pick == 0 { admitted - 1 } else { self.pick - 1 };
            },
            None => {},
        }
        Some(self.pick)
    }
}

/// How many suggestions the filter admits.
pub fn admitted_count(passes: &[bool]) -> (r: usize)
    ensures
        r == count_true(passes@),
{
    let mut n: usize = 0;
    let mut i: usize = 0;
    while i < passes.len()
        invariant
            i <= passes@.len(),
            n == count_true(passes@.take(i as int)),
        decreases passes.len() - i,
    {
        proof {
            assert(passes@.take(i + 1).drop_last() =~= passes@.take(i as int));
            lemma_count_true_bound(passes@.take(i as int));
        }
        if passes[i] {
            n = n + 1;
        }
        i = i + 1;
    }
    assert(passes@.take(i as int) =~= passes@);
    n
}

/// The index of the admitted suggestion in slot `slot`, counting admitted ones only.
pub fn nth_admitted(passes: &[bool], slot: usize) -> (r: Option<usize>)
    ensures
        match r {
            Some(i) => i < passes@.len() && passes@[i as int] && count_true(passes@.take(i as int)) == slot,
            None => count_true(passes@) <= slot,
        },
{
    let mut seen: usize = 0;
    let mut i: usize = 0;
    while i < passes.len()
        invariant
            i <= passes@.len(),
            seen == count_true(passes@.take(i as int)),
            seen <= slot,
        decreases passes.len() - i,
    {
        proof {
            assert(passes@.take(i + 1).drop_last() =~= passes@.take(i as int));
        }
        if passes[i] {
            if seen == slot {
                return Some(i);
            }
            seen = seen + 1;
        }
        i = i + 1;
    }
    assert(passes@.take(i as int) =~= passes@);
    None
}

/// A step forward and a step back leave the cursor where it was.
pub proof fn lemma_cycle_round_trip(pick: nat, n: nat)
    requires
        pick < n,
    ensures
        cycled(cycled(pick, n, GroupCycle::Forward), n, GroupCycle::Backward) == pick,
        cycled(cycled(pick, n, GroupCycle::Backward), n, GroupCycle::Forward) == pick,
{
    if pick + 1 < n {
        vstd::arithmetic::div_mod::lemma_small_mod((pick + 1) as nat, n);
    } else {
        vstd::arithmetic::div_mod::lemma_mod_self_0(n as int);
    }
    if pick > 0 {
        vstd::arithmetic::div_mod::lemma_small_mod(pick, n);
    } else {
        vstd::arithmetic::div_mod::lemma_mod_self_0(n as int);
    }
}

} // verus!
