//! Producer-owned input ownership stamps. A stamp belongs to a read batch, not to an
//! individual send: sending may block while the popup closes.
use std::sync::atomic::{AtomicU64, Ordering};
use vstd::prelude::*;

use crate::input::RawInputEvent;

verus! {

/// The cells and the pixels of the host's terminal.
#[derive(Clone, Copy, Debug, PartialEq, Eq, Structural)]
pub struct HostGeometry {
    pub cols: u16,
    pub rows: u16,
    pub width_px: u32,
    pub height_px: u32,
}

impl HostGeometry {
    /// The geometry, if it has an extent.
    pub fn new(cols: u16, rows: u16, width_px: u32, height_px: u32) -> (geometry: Option<Self>)
        ensures
            geometry == if cols > 0 && rows > 0 && width_px > 0 && height_px > 0 {
                Some(HostGeometry { cols, rows, width_px, height_px })
            } else {
                None
            },
    {
        if cols > 0 && rows > 0 && width_px > 0 && height_px > 0 {
            Some(HostGeometry { cols, rows, width_px, height_px })
        } else {
            None
        }
    }
}

/// What reaches the client's loop.
#[derive(Debug, PartialEq, Eq)]
pub enum ClientLoopEvent {
    /// Bytes from standard input.
    StdinInput(Vec<u8>),
    /// Events from a console that reports events in place of bytes.
    StdinEvents(Vec<RawInputEvent>),
    /// A mouse report in pixels, and the geometry to read it by.
    PixelMouse(Vec<u8>, HostGeometry),
    /// Input, with the stamp of the owner that it was read for.
    OwnedInput { epoch: u64, event: Box<ClientLoopEvent> },
    /// Columns, rows, their extent in pixels, and a flag.
    Resize(u16, u16, u32, u32, bool),
}

/// The event is the user's input, not yet stamped.
pub open spec fn is_input(event: ClientLoopEvent) -> bool {
    event is StdinInput || event is StdinEvents || event is PixelMouse
}

/// What becomes of an event read for the owner of `epoch`: input is stamped, anything else goes
/// on as it is.
pub open spec fn owned(epoch: u64, event: ClientLoopEvent) -> ClientLoopEvent {
    if is_input(event) {
        ClientLoopEvent::OwnedInput { epoch, event: Box::new(event) }
    } else {
        event
    }
}

/// Who owns input: the number of the popup change that was last seen.
#[derive(Clone, Copy, Debug, PartialEq, Eq, Structural)]
pub struct InputEpoch(pub u64);

impl InputEpoch {
    /// The owner after a poll.
    pub open spec fn next(self, candidate: InputEpoch, readable: bool, pending: bool) -> InputEpoch {
        if readable || pending {
            self
        } else {
            candidate
        }
    }

    /// The stamp that `epoch` holds now: what a load of it gives. Which one that is depends on who
    /// else stores there.
    pub fn capture(epoch: &AtomicU64) -> (captured: Self)
        ensures
            call_ensures(AtomicU64::load, (epoch, Ordering::Acquire), captured.0),
    {
        Self(epoch.load(Ordering::Acquire))
    }

    /// Ownership advances only across an observed no-data boundary without partial framing.
    /// Capture `candidate` BEFORE polling. Readable bytes and entire fragment-completion batches
    /// retain their existing owner, even if that conservatively drops fresh typeahead until the
    /// next idle boundary.
    pub fn after_poll(self, candidate: Self, readable: bool, pending: bool) -> (owner: Self)
        ensures
            owner == self.next(candidate, readable, pending),
    {
        if readable || pending {
            self
        } else {
            candidate
        }
    }

    /// Stamps input with its owner.
    pub fn own(self, event: ClientLoopEvent) -> (stamped: ClientLoopEvent)
        ensures
            stamped == owned(self.0, event),
    {
        match event {
            ClientLoopEvent::StdinInput(_)
            | ClientLoopEvent::StdinEvents(_)
            | ClientLoopEvent::PixelMouse(..) => ClientLoopEvent::OwnedInput {
                epoch: self.0,
                event: Box::new(event),
            },
            event => event,
        }
    }
}

/// One poll: the stamp captured before it, whether there was data to read, and whether part of
/// a sequence was still to come.
pub struct PollView {
    pub candidate: InputEpoch,
    pub readable: bool,
    pub pending: bool,
}

/// The owner after a run of polls.
pub open spec fn owner_after(owner: InputEpoch, polls: Seq<PollView>) -> InputEpoch
    decreases polls.len(),
{
    if polls.len() == 0 {
        owner
    } else {
        let last = polls.last();
        owner_after(owner, polls.drop_last()).next(last.candidate, last.readable, last.pending)
    }
}

/// However often the popup changes, input keeps its owner until a poll finds neither data nor
/// an unfinished sequence.
pub proof fn law_owner_kept_until_idle(owner: InputEpoch, polls: Seq<PollView>)
    requires
        forall|i: int| 0 <= i < polls.len() ==> (#[trigger] polls[i]).readable || polls[i].pending,
    ensures
        owner_after(owner, polls) == owner,
    decreases polls.len(),
{
    if polls.len() > 0 {
        let before = polls.drop_last();
        assert forall|i: int| 0 <= i < before.len() implies (#[trigger] before[i]).readable
            || before[i].pending by {
            assert(before[i] == polls[i]);
        }
        law_owner_kept_until_idle(owner, before);
        assert(polls.last() == polls[polls.len() - 1]);
    }
}

/// The poll at position `i` is the last one that found neither data nor an unfinished sequence.
pub open spec fn is_last_idle(polls: Seq<PollView>, i: int) -> bool {
    &&& 0 <= i < polls.len()
    &&& !polls[i].readable && !polls[i].pending
    &&& forall|j: int| i < j < polls.len() ==> (#[trigger] polls[j]).readable || polls[j].pending
}

/// After any run of polls the owner is the one captured before the last idle poll, or the first
/// one where no poll was idle: never one that came up only afterwards.
pub proof fn law_owner_was_captured(owner: InputEpoch, polls: Seq<PollView>)
    ensures
        forall|i: int| #[trigger]
            is_last_idle(polls, i) ==> owner_after(owner, polls) == polls[i].candidate,
        (forall|i: int| !#[trigger] is_last_idle(polls, i)) ==> owner_after(owner, polls) == owner,
    decreases polls.len(),
{
    if polls.len() > 0 {
        let before = polls.drop_last();
        let end = polls.len() - 1;
        let last = polls[end];
        law_owner_was_captured(owner, before);
        assert(last == polls.last());
        if !last.readable && !last.pending {
            assert(is_last_idle(polls, end));
            assert forall|i: int| #[trigger] is_last_idle(polls, i) implies owner_after(owner, polls)
                == polls[i].candidate by {
                if i < end {
                    assert(polls[end].readable || polls[end].pending);
                }
            }
        } else {
            assert forall|i: int| #[trigger] is_last_idle(polls, i) == is_last_idle(before, i) by {
                if is_last_idle(polls, i) {
                    assert(before[i] == polls[i]);
                    assert forall|j: int| i < j < before.len() implies (
                    #[trigger] before[j]).readable || before[j].pending by {
                        assert(before[j] == polls[j]);
                    }
                }
                if is_last_idle(before, i) {
                    assert(before[i] == polls[i]);
                    assert forall|j: int| i < j < polls.len() implies (
                    #[trigger] polls[j]).readable || polls[j].pending by {
                        if j < end {
                            assert(before[j] == polls[j]);
                        }
                    }
                }
            }
            assert forall|i: int| #[trigger] is_last_idle(polls, i) implies owner_after(owner, polls)
                == polls[i].candidate by {
                assert(is_last_idle(before, i));
                assert(before[i] == polls[i]);
            }
            if forall|i: int| !#[trigger] is_last_idle(polls, i) {
                assert forall|i: int| !#[trigger] is_last_idle(before, i) by {
                    assert(is_last_idle(polls, i) == is_last_idle(before, i));
                }
            }
        }
    }
}

/// A stamp once given stays: owning an event again, by whomever, changes nothing.
pub proof fn law_stamp_stays(first: u64, second: u64, event: ClientLoopEvent)
    ensures
        owned(second, owned(first, event)) == owned(first, event),
{
}

} // verus!
