//! The media queue's ordering: thumbnail epochs, stale work dropped, full views first.
use vstd::prelude::*;

use crate::model::PostId;

verus! {

/// A generation of thumbnail requests; a newer epoch makes older thumbnails stale.
#[derive(Clone, Copy, Debug, PartialEq, Eq, Structural)]
pub struct BladeEpoch(u64);

impl View for BladeEpoch {
    type V = u64;

    closed spec fn view(&self) -> u64 {
        self.0
    }
}

impl BladeEpoch {
    /// The first epoch.
    pub fn root() -> (r: BladeEpoch)
        ensures
            r@ == 0,
    {
        BladeEpoch(0)
    }

    /// The next epoch; the last one stays where it is.
    pub fn advance(self) -> (r: BladeEpoch)
        ensures
            r@ == if self@ == u64::MAX { u64::MAX } else { (self@ + 1) as u64 },
    {
        BladeEpoch(self.0.saturating_add(1))
    }

    pub fn at_least(self, other: BladeEpoch) -> (r: bool)
        ensures
            r == (self@ >= other@),
    {
        self.0 >= other.0
    }
}

/// Work for the media thread.
#[derive(Debug)]
pub enum MediaCommand {
    /// A thumbnail requested in `epoch`.
    Blade { epoch: BladeEpoch, id: PostId, bucket: u8, url: Option<String> },
    /// Drops every thumbnail older than `epoch`.
    Cull { epoch: BladeEpoch },
    /// A full-size image for the viewer.
    FullBlade { id: PostId, url: Option<String> },
    /// A copy of the media saved to `path`.
    Save { id: PostId, url: Option<String>, path: String },
}

pub open spec fn epoch_of(c: MediaCommand) -> Option<u64> {
    match c {
        MediaCommand::Blade { epoch, .. } => Some(epoch@),
        MediaCommand::Cull { epoch } => Some(epoch@),
        _ => None,
    }
}

/// Whether a command still has to run once `epoch` is current: thumbnails of an older
/// epoch and culls do not.
pub open spec fn live(c: MediaCommand, epoch: u64) -> bool {
    match c {
        MediaCommand::Blade { epoch: e, .. } => e@ >= epoch,
        MediaCommand::Cull { .. } => false,
        _ => true,
    }
}

/// The newest epoch among `epoch` and the epochs the commands carry.
pub open spec fn newest_epoch(cs: Seq<MediaCommand>, epoch: u64) -> u64
    decreases cs.len(),
{
    if cs.len() == 0 {
        epoch
    } else {
        let rest = newest_epoch(cs.drop_last(), epoch);
        match epoch_of(cs.last()) {
            Some(e) => if e > rest { e } else { rest },
            None => rest,
        }
    }
}

pub open spec fn live_commands(cs: Seq<MediaCommand>, epoch: u64) -> Seq<MediaCommand> {
    cs.filter(|c: MediaCommand| live(c, epoch))
}

pub open spec fn is_full(c: MediaCommand) -> bool {
    c is FullBlade
}

pub open spec fn is_save(c: MediaCommand) -> bool {
    c is Save
}

/// The command to run next: the first full-size image, else the first save, else the
/// oldest command.
pub open spec fn pick(cs: Seq<MediaCommand>) -> int {
    if exists|k: int| 0 <= k < cs.len() && is_full(#[trigger] cs[k]) {
        choose|k: int| 0 <= k < cs.len() && is_full(cs[k]) && forall|j: int| 0 <= j < k ==> !is_full(#[trigger] cs[j])
    } else if exists|k: int| 0 <= k < cs.len() && is_save(#[trigger] cs[k]) {
        choose|k: int| 0 <= k < cs.len() && is_save(cs[k]) && forall|j: int| 0 <= j < k ==> !is_save(#[trigger] cs[j])
    } else {
        0
    }
}

impl MediaCommand {
    pub fn blade_epoch(&self) -> (r: Option<BladeEpoch>)
        ensures
            match epoch_of(*self) {
                Some(e) => r matches Some(x) && x@ == e,
                None => r is None,
            },
    {
        match self {
            MediaCommand::Blade { epoch, .. } => Some(*epoch),
            MediaCommand::Cull { epoch } => Some(*epoch),
            _ => None,
        }
    }

    pub fn is_live(&self, epoch: BladeEpoch) -> (r: bool)
        ensures
            r == live(*self, epoch@),
    {
        match self {
            MediaCommand::Blade { epoch: candidate, .. } => candidate.at_least(epoch),
            MediaCommand::Cull { .. } => false,
            _ => true,
        }
    }
}

fn first_full(cs: &Vec<MediaCommand>) -> (r: usize)
    ensures
        r <= cs@.len(),
        r < cs@.len() ==> is_full(cs@[r as int]),
        forall|m: int| 0 <= m < r ==> !is_full(#[trigger] cs@[m]),
{
    let mut j: usize = 0;
    while j < cs.len()
        invariant
            j <= cs@.len(),
            forall|m: int| 0 <= m < j ==> !is_full(#[trigger] cs@[m]),
        decreases cs.len() - j,
    {
        if let MediaCommand::FullBlade { .. } = &cs[j] {
            return j;
        }
        j = j + 1;
    }
    j
}

fn first_save(cs: &Vec<MediaCommand>) -> (r: usize)
    ensures
        r <= cs@.len(),
        r < cs@.len() ==> is_save(cs@[r as int]),
        forall|m: int| 0 <= m < r ==> !is_save(#[trigger] cs@[m]),
{
    let mut j: usize = 0;
    while j < cs.len()
        invariant
            j <= cs@.len(),
            forall|m: int| 0 <= m < j ==> !is_save(#[trigger] cs@[m]),
        decreases cs.len() - j,
    {
        if let MediaCommand::Save { .. } = &cs[j] {
            return j;
        }
        j = j + 1;
    }
    j
}

/// One turn of the media queue over the commands received so far: the epoch moves to the
/// newest one seen, stale work is dropped, and the command to run is taken out. `None`
/// when nothing live is left; the caller then waits for more commands.
pub fn next_media_command(pending: &mut Vec<MediaCommand>, epoch: &mut BladeEpoch) -> (r: Option<MediaCommand>)
    ensures
        final(epoch)@ == newest_epoch(old(pending)@, old(epoch)@),
        ({
            let kept = live_commands(old(pending)@, final(epoch)@);
            if kept.len() == 0 {
                r is None && final(pending)@ == kept
            } else {
                r == Some(kept[pick(kept)]) && final(pending)@ == kept.remove(pick(kept))
            }
        }),
{
    let mut newest = *epoch;
    let mut i: usize = 0;
    while i < pending.len()
        invariant
            i <= pending@.len(),
            pending@ == old(pending)@,
            newest@ == newest_epoch(pending@.take(i as int), old(epoch)@),
        decreases pending.len() - i,
    {
        assert(pending@.take(i + 1).drop_last() =~= pending@.take(i as int));
        match pending[i].blade_epoch() {
            Some(e) => {
                if e.at_least(newest) && e != newest {
                    newest = e;
                }
            },
            None => {},
        }
        i = i + 1;
    }
    assert(pending@.take(i as int) =~= pending@);
    *epoch = newest;
    let ghost all = pending@;
    let mut kept: Vec<MediaCommand> = Vec::new();
    let mut k: usize = 0;
    let total = pending.len();
    while pending.len() > 0
        invariant
            k <= all.len(),
            all.len() == total,
            pending@ == all.skip(k as int),
            kept@ == live_commands(all.take(k as int), newest@),
        decreases pending.len(),
    {
        assert(k < all.len());
        let c = pending.remove(0);
        assert(c == all[k as int]);
        assert(pending@ =~= all.skip(k + 1));
        proof {
            assert(all.take(k + 1) =~= all.take(k as int).push(c));
            all.take(k as int).lemma_filter_push(c, |c: MediaCommand| live(c, newest@));
        }
        if c.is_live(newest) {
            kept.push(c);
        }
        k = k + 1;
    }
    assert(all.take(k as int) =~= all);
    if kept.len() == 0 {
        *pending = kept;
        return None;
    }
    let full = first_full(&kept);
    let save = first_save(&kept);
    let slot: usize = if full < kept.len() {
        full
    } else if save < kept.len() {
        save
    } else {
        0
    };
    proof {
        let ks = kept@;
        if exists|m: int| 0 <= m < ks.len() && is_full(#[trigger] ks[m]) {
            let w = choose|m: int| 0 <= m < ks.len() && is_full(ks[m]) && forall|x: int| 0 <= x < m ==> !is_full(#[trigger] ks[x]);
            assert(w == full) by {
                if w < full { assert(!is_full(ks[w])); }
                if full < w { assert(!is_full(ks[full as int])); }
            }
        } else if exists|m: int| 0 <= m < ks.len() && is_save(#[trigger] ks[m]) {
            assert(full == ks.len()) by {
                if full < ks.len() { assert(is_full(ks[full as int])); }
            }
            let w = choose|m: int| 0 <= m < ks.len() && is_save(ks[m]) && forall|x: int| 0 <= x < m ==> !is_save(#[trigger] ks[x]);
            assert(w == save) by {
                if w < save { assert(!is_save(ks[w])); }
                if save < w { assert(!is_save(ks[save as int])); }
            }
        } else {
            assert(full == ks.len()) by {
                if full < ks.len() { assert(is_full(ks[full as int])); }
            }
            assert(save == ks.len()) by {
                if save < ks.len() { assert(is_save(ks[save as int])); }
            }
        }
        assert(slot == pick(ks));
    }
    let chosen = kept.remove(slot);
    *pending = kept;
    Some(chosen)
}

/// The media queue's epoch never moves back.
pub proof fn lemma_epoch_never_decreases(cs: Seq<MediaCommand>, epoch: u64)
    ensures
        newest_epoch(cs, epoch) >= epoch,
    decreases cs.len(),
{
    if cs.len() > 0 {
        lemma_epoch_never_decreases(cs.drop_last(), epoch);
    }
}

} // verus!
