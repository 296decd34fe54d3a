//! Bookkeeping of the asynchronous refreshes: serials, in-flight pulses, pinned posts.
use vstd::prelude::*;

use crate::config::{PinConfig, MAX_WEIGHT, MIN_WEIGHT};
use crate::model::PostRecord;

verus! {

/// A request that may be in flight, and whether a newer one is wanted after it.
#[derive(Clone, Copy, Debug, PartialEq, Eq, Structural)]
pub enum AsyncPulse {
    Idle,
    InFlight { serial: u64 },
    Dirty { serial: u64 },
}

impl AsyncPulse {
    /// The serial of the request in flight.
    pub fn inflight_serial(self) -> (r: Option<u64>)
        ensures
            r == match self {
                AsyncPulse::Idle => None,
                AsyncPulse::InFlight { serial } => Some(serial),
                AsyncPulse::Dirty { serial } => Some(serial),
            },
    {
        match self {
            AsyncPulse::Idle => None,
            AsyncPulse::InFlight { serial } => Some(serial),
            AsyncPulse::Dirty { serial } => Some(serial),
        }
    }

    /// A newer request waits for this one.
    pub fn is_dirty(self) -> (r: bool)
        ensures
            r == (self is Dirty),
    {
        match self {
            AsyncPulse::Dirty { .. } => true,
            _ => false,
        }
    }
}

/// The next serial, stored and returned; the last one stays where it is.
pub fn next_serial(serial: &mut u64) -> (r: u64)
    ensures
        *final(serial) == if *old(serial) == u64::MAX { u64::MAX } else { (*old(serial) + 1) as u64 },
        r == *final(serial),
{
    *serial = serial.saturating_add(1);
    *serial
}

/// What a finished request leaves to do.
#[derive(Debug)]
pub struct Finish {
    /// Its result is the newest asked for and nothing newer waits: show it.
    pub install: bool,
    /// A newer request waited: send this serial now.
    pub resend: Option<u64>,
}

/// Requests that coalesce: the newest serial asked for, and the one request out.
#[derive(Debug)]
pub struct Coalescer {
    pub latest: u64,
    pub pulse: AsyncPulse,
}

pub open spec fn bumped(serial: u64) -> u64 {
    if serial == u64::MAX { u64::MAX } else { (serial + 1) as u64 }
}

pub open spec fn inflight_of(p: AsyncPulse) -> Option<u64> {
    match p {
        AsyncPulse::Idle => None,
        AsyncPulse::InFlight { serial } => Some(serial),
        AsyncPulse::Dirty { serial } => Some(serial),
    }
}

/// What `request` does: `p` before, `q` after, `asked` the serial to send.
pub open spec fn requested(p: &Coalescer, q: &Coalescer, asked: Option<u64>) -> bool {
    &&& q.latest == bumped(p.latest)
    &&& match p.pulse {
        AsyncPulse::Idle => asked == Some(q.latest) && q.pulse == AsyncPulse::Idle,
        AsyncPulse::InFlight { serial } => asked is None && q.pulse == (AsyncPulse::Dirty { serial }),
        AsyncPulse::Dirty { serial } => asked is None && q.pulse == (AsyncPulse::Dirty { serial }),
    }
}

/// What `finish(serial)` does: `p` before, `q` after, `done` what is left to do.
pub open spec fn finished(p: &Coalescer, serial: u64, q: &Coalescer, done: &Finish) -> bool {
    &&& q.latest == p.latest
    &&& if inflight_of(p.pulse) == Some(serial) {
        &&& q.pulse == AsyncPulse::Idle
        &&& done.install == (!(p.pulse is Dirty) && serial == p.latest)
        &&& done.resend == if p.pulse is Dirty { Some(p.latest) } else { None }
    } else {
        q.pulse == p.pulse && !done.install && done.resend is None
    }
}

impl Coalescer {
    /// Nothing asked for yet.
    pub fn new() -> (r: Coalescer)
        ensures
            r.latest == 0,
            r.pulse == AsyncPulse::Idle,
    {
        Coalescer { latest: 0, pulse: AsyncPulse::Idle }
    }

    /// Asks for a fresh result under the next serial. With no request out, that serial is
    /// to be sent; otherwise the request out is marked as outdated and nothing is sent.
    pub fn request(&mut self) -> (r: Option<u64>)
        ensures
            requested(old(self), final(self), r),
    {
        let serial = next_serial(&mut self.latest);
        match self.pulse {
            AsyncPulse::Idle => Some(serial),
            AsyncPulse::InFlight { serial: out } => {
                self.pulse = AsyncPulse::Dirty { serial: out };
                None
            },
            AsyncPulse::Dirty { serial: out } => {
                self.pulse = AsyncPulse::Dirty { serial: out };
                None
            },
        }
    }

    /// The request `serial` went out.
    pub fn sent(&mut self, serial: u64)
        ensures
            final(self).latest == old(self).latest,
            final(self).pulse == (AsyncPulse::InFlight { serial }),
    {
        self.pulse = AsyncPulse::InFlight { serial };
    }

    /// The request could not be sent; nothing is out.
    pub fn send_failed(&mut self)
        ensures
            final(self).latest == old(self).latest,
            final(self).pulse == AsyncPulse::Idle,
    {
        self.pulse = AsyncPulse::Idle;
    }

    /// The answer to request `serial` arrived. Only the request out counts: its result is
    /// shown when it is the newest asked for and nothing waited, and a request that waited
    /// is sent under the newest serial.
    pub fn finish(&mut self, serial: u64) -> (r: Finish)
        ensures
            finished(old(self), serial, final(self), &r),
    {
        match self.pulse.inflight_serial() {
            Some(out) => {
                if out != serial {
                    return Finish { install: false, resend: None };
                }
            },
            None => return Finish { install: false, resend: None },
        }
        let dirty = self.pulse.is_dirty();
        self.pulse = AsyncPulse::Idle;
        Finish {
            install: !dirty && serial == self.latest,
            resend: if dirty { Some(self.latest) } else { None },
        }
    }
}

/// Asking while a request is out sends nothing, and the answer to that request is then
/// not shown but followed by a request under the newest serial.
pub proof fn lemma_outdated_answers_are_resent(
    before: &Coalescer,
    after: &Coalescer,
    asked: Option<u64>,
    serial: u64,
    last: &Coalescer,
    done: &Finish,
)
    requires
        inflight_of(before.pulse) == Some(serial),
        requested(before, after, asked),
        finished(after, serial, last, done),
    ensures
        asked is None,
        !done.install,
        done.resend == Some(last.latest),
        last.pulse == AsyncPulse::Idle,
{
}

/// An answer that is shown is the answer to the newest request.
pub proof fn lemma_shown_answer_is_newest(p: &Coalescer, serial: u64, q: &Coalescer, done: &Finish)
    requires
        finished(p, serial, q, done),
        done.install,
    ensures
        serial == q.latest,
        inflight_of(p.pulse) == Some(serial),
{
}

/// A post pinned into the ranking, with its weight.
#[derive(Debug)]
pub struct RankPin {
    pub post: PostRecord,
    pub weight: u8,
}

impl RankPin {
    /// The weight is clamped into `MIN_WEIGHT..=MAX_WEIGHT`.
    pub fn new(post: PostRecord, weight: u8) -> (r: RankPin)
        ensures
            r.post == post,
            r.weight == if weight < MIN_WEIGHT { MIN_WEIGHT } else if weight > MAX_WEIGHT { MAX_WEIGHT } else { weight },
    {
        let weight = if weight < MIN_WEIGHT {
            MIN_WEIGHT
        } else if weight > MAX_WEIGHT {
            MAX_WEIGHT
        } else {
            weight
        };
        RankPin { post, weight }
    }

    /// The pin as the configuration stores it.
    pub fn config(&self) -> (r: PinConfig)
        ensures
            r.id == self.post.id,
            r.weight == if self.weight < MIN_WEIGHT { MIN_WEIGHT } else if self.weight > MAX_WEIGHT { MAX_WEIGHT } else { self.weight },
    {
        PinConfig::new(self.post.id, self.weight)
    }
}

} // verus!
