//! One authentication attempt at a time: how it starts, takes input, is polled, and ends.
//!
//! The host's work (the PTY, its program and its terminal) is done between the steps of a poll:
//! a step says what it needs, and what came of that goes to the next step. Times are in
//! nanoseconds.
use std::collections::VecDeque;
use vstd::prelude::*;

use crate::endpoint::{
    paused, retried, ClientEndpointId, ClientEndpointStatus, EndpointIdView,
    EndpointSupervisors, SavedSshEndpoint,
};
use crate::error::{result_view, AuthError, ErrorKind, ErrorView};
use crate::rect::{at_least_one, max_one, sub_floored};
use crate::shell::auth::{AuthView, Phase, PopupView, SshAuthCommand};
use crate::shell::{law_status_set, status_of, status_set, ClientShellState};
use crate::ssh_auth::{
    broken_pipe, send_result, sent_pieces, write_refusal, PollView, ProcessView, SendOutcome,
    SshAuthProcess, MAX_WRITE_BYTES,
};

verus! {

/// How much input may wait to be written.
pub const INPUT_LIMIT: usize = 65536;

/// How long a machine may take to reconnect before the popup gives up on it.
pub const VERIFY_TIMEOUT: u64 = 30_000_000_000;

/// The error of a terminal operation.
pub fn terminal_error(message: String) -> (error: AuthError)
    ensures
        error@ == (ErrorView { kind: ErrorKind::Other, message: message@ }),
{
    AuthError { kind: ErrorKind::Other, message }
}

/// An attempt: first a program authenticates on a PTY, then the machine is to reconnect.
pub struct Authentication {
    pub profile: SavedSshEndpoint,
    pub process: Option<SshAuthProcess>,
    pub pending_input: VecDeque<u8>,
    pub size: (u16, u16),
    pub verifying_until: Option<u64>,
}

/// The profile is enabled and still leads where the attempt's profile led.
pub open spec fn same_target(profile: SavedSshEndpoint, other: SavedSshEndpoint) -> bool {
    &&& other.enabled
    &&& other.id@ == profile.id@
    &&& other.target@ == profile.target@
    &&& other.session@ == profile.session@
}

impl Authentication {
    /// The attempt either authenticates or waits for the machine; what waits to be written is
    /// bounded; the terminal has a cell.
    pub open spec fn well_formed(&self) -> bool {
        &&& self.process is Some == self.verifying_until is None
        &&& self.process is None ==> self.pending_input@.len() == 0
        &&& self.pending_input@.len() <= INPUT_LIMIT
        &&& self.size.0 >= 1 && self.size.1 >= 1
    }

    pub open spec fn endpoint(&self) -> EndpointIdView {
        self.profile.endpoint()
    }

    /// One of the profiles is still the one that the attempt was started for.
    pub open spec fn is_current(&self, profiles: Seq<SavedSshEndpoint>) -> bool {
        exists|i: int| 0 <= i < profiles.len() && same_target(self.profile, #[trigger] profiles[i])
    }

    /// The attempt at its start, with `process` on a PTY of `cols` columns and `rows` rows.
    pub fn start(
        profile: SavedSshEndpoint,
        cols: u16,
        rows: u16,
        process: SshAuthProcess,
    ) -> (auth: Authentication)
        ensures
            auth.well_formed(),
            auth.profile == profile,
            auth.process == Some(process),
            auth.pending_input@ == Seq::<u8>::empty(),
            auth.size == (at_least_one(cols), at_least_one(rows)),
            auth.verifying_until is None,
    {
        Authentication {
            profile,
            process: Some(process),
            pending_input: VecDeque::new(),
            size: (max_one(cols), max_one(rows)),
            verifying_until: None,
        }
    }

    pub fn endpoint_id(&self) -> (id: ClientEndpointId)
        ensures
            id@ == self.endpoint(),
    {
        self.profile.endpoint_id()
    }

    /// Whether a program still authenticates.
    pub fn has_process(&self) -> (authenticating: bool)
        ensures
            authenticating == (self.process is Some),
    {
        self.process.is_some()
    }

    pub fn matches_profile(&self, profiles: &[SavedSshEndpoint]) -> (current: bool)
        ensures
            current == self.is_current(profiles@),
    {
        let mut i: usize = 0;
        while i < profiles.len()
            invariant
                i <= profiles.len(),
                forall|j: int|
                    0 <= j < i ==> !same_target(self.profile, #[trigger] profiles@[j]),
            decreases profiles.len() - i,
        {
            let p = &profiles[i];
            if p.enabled && p.id == self.profile.id && p.target == self.profile.target && p.session
                == self.profile.session {
                assert(same_target(self.profile, profiles@[i as int]));
                return true;
            }
            i += 1;
        }
        false
    }
}

/// The piece of `pending` that is written first.
pub open spec fn next_chunk(pending: Seq<u8>) -> Seq<u8> {
    if pending.len() <= MAX_WRITE_BYTES {
        pending
    } else {
        pending.take(MAX_WRITE_BYTES as int)
    }
}

/// `pending` in the pieces in which it is written.
pub open spec fn cut(pending: Seq<u8>) -> Seq<Seq<u8>>
    decreases pending.len(),
{
    if pending.len() == 0 {
        seq![]
    } else {
        seq![next_chunk(pending)] + cut(pending.skip(next_chunk(pending).len() as int))
    }
}

/// Each of the pieces, with the word that it went into the channel.
pub open spec fn all_sent(pieces: Seq<Seq<u8>>) -> Seq<(Seq<u8>, SendOutcome)> {
    pieces.map_values(|piece: Seq<u8>| (piece, SendOutcome::Sent))
}

/// The process once its input took the pieces.
pub open spec fn took(process: ProcessView, pieces: Seq<Seq<u8>>) -> ProcessView {
    ProcessView {
        input: match process.input {
            Some(offers) => Some(offers + all_sent(pieces)),
            None => None,
        },
        ..process
    }
}

/// Writing `pending` to `process` leaves `after` and `rest`, and ends in `result`. The first `n`
/// pieces are offered once each, in order, and all go into the channel; what is left is the rest.
/// It ends there, or at a piece that does not go in: for `refusal`, or because the input is
/// closed. A full channel is no error: the rest is to be tried again later.
pub open spec fn flush_run(
    process: ProcessView,
    pending: Seq<u8>,
    n: int,
    refusal: SendOutcome,
    after: ProcessView,
    rest: Seq<u8>,
    result: Result<(), ErrorView>,
) -> bool {
    let pieces = cut(pending);
    &&& 0 <= n <= pieces.len()
    &&& process.input is None ==> n == 0
    &&& pieces.take(n).flatten() + rest == pending
    &&& if n == pieces.len() {
        &&& after == took(process, pieces)
        &&& result == Ok::<(), ErrorView>(())
    } else if process.input is None {
        &&& after == process
        &&& result == Err::<(), ErrorView>(broken_pipe())
    } else {
        &&& refusal != SendOutcome::Sent
        &&& after == took(process, pieces.take(n)).offered(pieces[n], refusal)
        &&& result == if refusal == SendOutcome::Full {
            Ok(())
        } else {
            Err(broken_pipe())
        }
    }
}

/// `after` is `before` once it wrote what it could of its input.
pub open spec fn flushed(
    before: Authentication,
    after: Authentication,
    result: Result<(), ErrorView>,
) -> bool {
    &&& before.process is Some
    &&& after.process is Some
    &&& after == (Authentication {
        process: after.process,
        pending_input: after.pending_input,
        ..before
    })
    &&& exists|n: int, refusal: SendOutcome| #[trigger]
        flush_run(
            before.process->0@,
            before.pending_input@,
            n,
            refusal,
            after.process->0@,
            after.pending_input@,
            result,
        )
}

/// The first `count` bytes that wait.
fn front(pending: &VecDeque<u8>, count: usize) -> (bytes: Vec<u8>)
    requires
        count <= pending@.len(),
    ensures
        bytes@ == pending@.take(count as int),
{
    let mut bytes: Vec<u8> = Vec::new();
    let mut i: usize = 0;
    while i < count
        invariant
            i <= count <= pending@.len(),
            bytes@ == pending@.take(i as int),
        decreases count - i,
    {
        bytes.push(pending[i]);
        i += 1;
    }
    bytes
}

/// Lets `bytes` wait behind what waits already.
fn extend(pending: &mut VecDeque<u8>, bytes: &Vec<u8>)
    ensures
        final(pending)@ == old(pending)@ + bytes@,
{
    let mut i: usize = 0;
    assert(pending@ + bytes@.take(0) =~= pending@);
    while i < bytes.len()
        invariant
            i <= bytes.len(),
            pending@ == old(pending)@ + bytes@.take(i as int),
        decreases bytes.len() - i,
    {
        pending.push_back(bytes[i]);
        i += 1;
        assert(pending@ =~= old(pending)@ + bytes@.take(i as int));
    }
    assert(bytes@.take(i as int) =~= bytes@);
}

impl Authentication {
    /// Writes the input that waits, until the process takes no more for now.
    pub fn flush_input(&mut self) -> (result: Result<(), AuthError>)
        requires
            old(self).process is Some,
            old(self).well_formed(),
        ensures
            final(self).well_formed(),
            flushed(*old(self), *final(self), result_view(result)),
    {
        let ghost process = self.process->0@;
        let ghost whole = self.pending_input@;
        let ghost pieces = cut(whole);
        let ghost mut n: int = 0;
        proof {
            assert(pieces.skip(0) =~= pieces);
            assert(pieces.take(0).flatten() + whole =~= whole);
            assert(took(process, pieces.take(0)) =~= process) by {
                if process.input is Some {
                    assert(process.input->0 + all_sent(pieces.take(0)) =~= process.input->0);
                }
            }
        }
        while self.pending_input.len() > 0
            invariant
                self.process is Some,
                self.process->0@ == took(process, pieces.take(n)),
                *self == (Authentication {
                    process: self.process,
                    pending_input: self.pending_input,
                    ..*old(self)
                }),
                process == old(self).process->0@,
                whole == old(self).pending_input@,
                pieces == cut(whole),
                0 <= n <= pieces.len(),
                process.input is None ==> n == 0,
                cut(self.pending_input@) == pieces.skip(n),
                pieces.take(n).flatten() + self.pending_input@ == whole,
                old(self).well_formed(),
                old(self).process is Some,
            decreases self.pending_input@.len(),
        {
            let count: usize = if self.pending_input.len() <= MAX_WRITE_BYTES {
                self.pending_input.len()
            } else {
                MAX_WRITE_BYTES
            };
            let ghost pending = self.pending_input@;
            let ghost middle = self.process->0@;
            let chunk = front(&self.pending_input, count);
            proof {
                assert(chunk@ =~= next_chunk(pending));
                assert(cut(pending)[0] == chunk@);
                assert(cut(pending).len() > 0);
                assert(pieces.skip(n).len() == cut(pending).len());
                assert(pieces.skip(n)[0] == pieces[n]);
                assert(write_refusal(chunk@.len(), true) is None);
            }
            let written = match &mut self.process {
                Some(process) => process.write(chunk.as_slice()),
                None => Ok(()),
            };
            match written {
                Ok(()) => {
                    let rest = self.pending_input.split_off(count);
                    self.pending_input = rest;
                    proof {
                        assert(middle.input is Some);
                        let outcome = choose|outcome: SendOutcome|
                            self.process->0@ == #[trigger] middle.offered(chunk@, outcome)
                                && Ok::<(), ErrorView>(()) == send_result(outcome);
                        assert(outcome == SendOutcome::Sent);
                        let longer = pieces.take(n + 1);
                        assert(longer =~= pieces.take(n).push(chunk@));
                        assert(all_sent(longer) =~= all_sent(pieces.take(n)).push(
                            (chunk@, SendOutcome::Sent),
                        ));
                        assert(self.process->0@.input->0 =~= process.input->0 + all_sent(longer));
                        assert(self.pending_input@ =~= pending.skip(count as int));
                        pieces.take(n).lemma_flatten_push(chunk@);
                        assert(chunk@ + self.pending_input@ =~= pending);
                        assert(longer.flatten() + self.pending_input@ =~= pieces.take(n).flatten()
                            + pending);
                        assert(cut(self.pending_input@) =~= cut(pending).drop_first());
                        assert(pieces.skip(n).drop_first() =~= pieces.skip(n + 1));
                        n = n + 1;
                    }
                },
                Err(error) => {
                    let full = error.kind == ErrorKind::WouldBlock;
                    proof {
                        let refusal = if full {
                            SendOutcome::Full
                        } else {
                            SendOutcome::Disconnected
                        };
                        if process.input is Some {
                            let outcome = choose|outcome: SendOutcome|
                                self.process->0@ == #[trigger] middle.offered(chunk@, outcome)
                                    && Err::<(), ErrorView>(error@) == send_result(outcome);
                            assert(outcome == refusal);
                        } else {
                            assert(took(process, pieces.take(n)) =~= process);
                        }
                        assert(flush_run(
                            process,
                            whole,
                            n,
                            refusal,
                            self.process->0@,
                            pending,
                            if full {
                                Ok(())
                            } else {
                                Err(error@)
                            },
                        ));
                    }
                    return if full {
                        Ok(())
                    } else {
                        Err(error)
                    };
                },
            }
        }
        proof {
            assert(cut(self.pending_input@).len() == 0);
            assert(n == pieces.len());
            assert(pieces.take(n) =~= pieces);
            assert(flush_run(
                process,
                whole,
                n,
                SendOutcome::Full,
                self.process->0@,
                self.pending_input@,
                Ok::<(), ErrorView>(()),
            ));
        }
        Ok(())
    }
}

/// What one poll has settled so far.
#[derive(Clone, Copy, Debug, PartialEq, Eq)]
pub struct PollTurn {
    /// Columns and rows of the terminal.
    pub size: (u16, u16),
    pub resized: bool,
    /// Whether the program succeeded, once it has ended and all its output was taken.
    pub exit: Option<bool>,
}

impl PollTurn {
    /// The last column and the last row of the terminal's viewport.
    pub fn viewport_end(&self) -> (end: (u16, u32))
        ensures
            end.0 == sub_floored(self.size.0, 1),
            end.1 == sub_floored(self.size.1, 1),
    {
        (self.size.0.saturating_sub(1), self.size.1.saturating_sub(1) as u32)
    }
}

/// What a terminal shows after it took the output.
#[derive(Debug, PartialEq, Eq)]
pub struct Screen {
    pub text: String,
    pub cursor_visible: bool,
    /// Column and row of the cursor in the viewport.
    pub cursor: Option<(u16, u16)>,
}

impl Screen {
    pub open spec fn shown_cursor(&self) -> Option<(u16, u16)> {
        if self.cursor_visible {
            self.cursor
        } else {
            None
        }
    }
}

/// How far a poll of an attempt got: it has finished, with what changed and whether the machine
/// is to be tried again, or it needs something of the host first.
pub enum AuthStep {
    Finished(Result<(bool, bool), AuthError>),
    /// Give the PTY and the terminal this size.
    Resize(PollTurn),
    /// Ask for the status of the program.
    Ask(PollTurn),
    /// Pass this output to the terminal, and see what it shows.
    Draw(PollTurn, Vec<u8>),
}

pub enum StepView {
    Finished(Result<(bool, bool), ErrorView>),
    Resize(PollTurn),
    Ask(PollTurn),
    Draw(PollTurn, Seq<u8>),
}

impl View for AuthStep {
    type V = StepView;

    open spec fn view(&self) -> StepView {
        match self {
            AuthStep::Finished(result) => StepView::Finished(result_view(*result)),
            AuthStep::Resize(turn) => StepView::Resize(*turn),
            AuthStep::Ask(turn) => StepView::Ask(*turn),
            AuthStep::Draw(turn, output) => StepView::Draw(*turn, output@),
        }
    }
}

pub open spec fn timeout_error() -> ErrorView {
    ErrorView {
        kind: ErrorKind::TimedOut,
        message: "SSH authenticated, but the machine did not reconnect. Close and try again."@,
    }
}

pub open spec fn incomplete_error() -> ErrorView {
    ErrorView {
        kind: ErrorKind::Other,
        message: "SSH authentication did not complete. Close the popup and try again."@,
    }
}

/// The attempt waits for the machine, and has waited long enough by `now`.
pub open spec fn is_overdue(auth: Authentication, now: u64) -> bool {
    auth.verifying_until matches Some(deadline) && now >= deadline
}

/// The turn at the start of a poll: the terminal gets the size of the popup, if there is one.
pub open spec fn first_turn(auth: Authentication, popup: Option<PopupView>) -> PollTurn {
    let wanted = match popup {
        Some(popup) => popup.size,
        None => auth.size,
    };
    let size = (at_least_one(wanted.0), at_least_one(wanted.1));
    PollTurn { size, resized: size != auth.size, exit: None }
}

/// The end of a poll that found `exit`: success leaves the attempt waiting for the machine,
/// failure is an error.
pub open spec fn settled(
    before: Authentication,
    shell_before: ClientShellState,
    now: u64,
    changed: bool,
    exit: Option<bool>,
    after: Authentication,
    shell_after: ClientShellState,
    result: Result<(bool, bool), ErrorView>,
) -> bool {
    match exit {
        Some(true) => {
            &&& after == (Authentication {
                process: None,
                pending_input: after.pending_input,
                verifying_until: Some((now + VERIFY_TIMEOUT) as u64),
                ..before
            })
            &&& after.pending_input@.len() == 0
            &&& shell_after.same_but_auth(shell_before)
            &&& shell_after.auth@ == shell_before.auth@.verifying()
            &&& result == Ok::<(bool, bool), ErrorView>((true, true))
        },
        Some(false) => {
            &&& after == before
            &&& shell_after == shell_before
            &&& result == Err::<(bool, bool), ErrorView>(incomplete_error())
        },
        None => {
            &&& after == before
            &&& shell_after == shell_before
            &&& result == Ok::<(bool, bool), ErrorView>((changed, false))
        },
    }
}

/// The part of a poll that takes output: the program's status is `waited`.
pub open spec fn output_taken(
    before: Authentication,
    shell_before: ClientShellState,
    now: u64,
    turn: PollTurn,
    waited: Result<Option<bool>, ErrorView>,
    after: Authentication,
    shell_after: ClientShellState,
    step: StepView,
) -> bool {
    exists|process: SshAuthProcess, polled: Result<PollView, ErrorView>|
        {
            let middle = Authentication { process: Some(process), ..before };
            &&& before.process is Some
            &&& #[trigger] before.process->0@.polled(waited, process@, polled)
            &&& match polled {
                Err(error) => {
                    &&& after == middle
                    &&& shell_after == shell_before
                    &&& step == StepView::Finished(Err(error))
                },
                Ok(poll) => if turn.resized || poll.output.len() > 0 {
                    &&& after == middle
                    &&& shell_after == shell_before
                    &&& step == StepView::Draw(PollTurn { exit: poll.exit, ..turn }, poll.output)
                } else {
                    &&& step is Finished
                    &&& settled(
                        middle,
                        shell_before,
                        now,
                        false,
                        poll.exit,
                        after,
                        shell_after,
                        step->Finished_0,
                    )
                },
            }
        }
}

/// The part of a poll that writes the input, and then takes output unless the program has to be
/// asked for its status first.
pub open spec fn pumped(
    before: Authentication,
    shell_before: ClientShellState,
    now: u64,
    turn: PollTurn,
    after: Authentication,
    shell_after: ClientShellState,
    step: StepView,
) -> bool {
    exists|middle: Authentication, written: Result<(), ErrorView>|
        {
            &&& #[trigger] flushed(before, middle, written)
            &&& match written {
                Err(error) => {
                    &&& after == middle
                    &&& shell_after == shell_before
                    &&& step == StepView::Finished(Err(error))
                },
                Ok(_) => if middle.process->0.exit is None {
                    &&& after == middle
                    &&& shell_after == shell_before
                    &&& step == StepView::Ask(turn)
                } else {
                    output_taken(
                        middle,
                        shell_before,
                        now,
                        turn,
                        Ok(None),
                        after,
                        shell_after,
                        step,
                    )
                },
            }
        }
}

/// The start of a poll.
pub open spec fn poll_begun(
    before: Authentication,
    shell_before: ClientShellState,
    now: u64,
    after: Authentication,
    shell_after: ClientShellState,
    step: StepView,
) -> bool {
    let turn = first_turn(before, shell_before.auth@.popup);
    if is_overdue(before, now) {
        &&& after == before
        &&& shell_after == shell_before
        &&& step == StepView::Finished(Err(timeout_error()))
    } else if before.process is None {
        &&& after == before
        &&& shell_after == shell_before
        &&& step == StepView::Finished(Ok((false, false)))
    } else if turn.resized {
        &&& after == before
        &&& shell_after == shell_before
        &&& step == StepView::Resize(turn)
    } else {
        pumped(before, shell_before, now, turn, after, shell_after, step)
    }
}

/// A poll once the host has resized the PTY and the terminal, or failed to.
pub open spec fn poll_resized(
    before: Authentication,
    shell_before: ClientShellState,
    now: u64,
    turn: PollTurn,
    outcome: Result<(), ErrorView>,
    after: Authentication,
    shell_after: ClientShellState,
    step: StepView,
) -> bool {
    match outcome {
        Err(error) => {
            &&& after == before
            &&& shell_after == shell_before
            &&& step == StepView::Finished(Err(error))
        },
        Ok(_) => pumped(
            Authentication { size: turn.size, ..before },
            shell_before,
            now,
            turn,
            after,
            shell_after,
            step,
        ),
    }
}

/// A poll once the terminal has taken the output, or failed to.
pub open spec fn poll_drawn(
    before: Authentication,
    shell_before: ClientShellState,
    now: u64,
    turn: PollTurn,
    outcome: Result<Screen, AuthError>,
    after: Authentication,
    shell_after: ClientShellState,
    step: StepView,
) -> bool {
    match outcome {
        Err(error) => {
            &&& after == before
            &&& shell_after == shell_before
            &&& step == StepView::Finished(Err(error@))
        },
        Ok(screen) => exists|shell: ClientShellState|
            {
                &&& #[trigger] shell.same_but_auth(shell_before)
                &&& shell.auth@ == shell_before.auth@.updated(screen.text@, screen.shown_cursor())
                &&& step is Finished
                &&& settled(
                    before,
                    shell,
                    now,
                    true,
                    turn.exit,
                    after,
                    shell_after,
                    step->Finished_0,
                )
            },
    }
}

impl Authentication {
    fn settle(
        &mut self,
        shell: &mut ClientShellState,
        now: u64,
        changed: bool,
        exit: Option<bool>,
    ) -> (result: Result<(bool, bool), AuthError>)
        requires
            old(self).process is Some,
            old(self).well_formed(),
            old(shell).auth.well_formed(),
            exit == Some(true) ==> now + VERIFY_TIMEOUT <= u64::MAX,
        ensures
            final(self).well_formed(),
            final(shell).auth.well_formed(),
            settled(
                *old(self),
                *old(shell),
                now,
                changed,
                exit,
                *final(self),
                *final(shell),
                result_view(result),
            ),
    {
        match exit {
            Some(true) => {
                self.process = None;
                self.pending_input.clear();
                self.verifying_until = Some(now + VERIFY_TIMEOUT);
                shell.auth_popup_verifying();
                Ok((true, true))
            },
            Some(false) => Err(
                AuthError::new(
                    ErrorKind::Other,
                    "SSH authentication did not complete. Close the popup and try again.",
                ),
            ),
            None => Ok((changed, false)),
        }
    }

    /// Goes on with a poll once the program was asked for its status.
    pub fn resume_asked(
        &mut self,
        shell: &mut ClientShellState,
        now: u64,
        turn: PollTurn,
        waited: Result<Option<bool>, AuthError>,
    ) -> (step: AuthStep)
        requires
            old(self).process is Some,
            old(self).well_formed(),
            old(shell).auth.well_formed(),
            now + VERIFY_TIMEOUT <= u64::MAX,
        ensures
            final(self).well_formed(),
            final(shell).auth.well_formed(),
            output_taken(
                *old(self),
                *old(shell),
                now,
                turn,
                result_view(waited),
                *final(self),
                *final(shell),
                step@,
            ),
    {
        let polled = match &mut self.process {
            Some(process) => process.poll(waited),
            None => {
                return AuthStep::Finished(Ok((false, false)));
            },
        };
        let ghost middle = *self;
        assert(middle == (Authentication { process: middle.process, ..*old(self) }));
        match polled {
            Err(error) => AuthStep::Finished(Err(error)),
            Ok(poll) => if turn.resized || !poll.output.is_empty() {
                AuthStep::Draw(
                    PollTurn { size: turn.size, resized: turn.resized, exit: poll.exit },
                    poll.output,
                )
            } else {
                AuthStep::Finished(self.settle(shell, now, false, poll.exit))
            },
        }
    }

    fn pump(&mut self, shell: &mut ClientShellState, now: u64, turn: PollTurn) -> (step: AuthStep)
        requires
            old(self).process is Some,
            old(self).well_formed(),
            old(shell).auth.well_formed(),
            now + VERIFY_TIMEOUT <= u64::MAX,
        ensures
            final(self).well_formed(),
            final(shell).auth.well_formed(),
            pumped(*old(self), *old(shell), now, turn, *final(self), *final(shell), step@),
    {
        let written = self.flush_input();
        let ghost middle = *self;
        match written {
            Err(error) => {
                return AuthStep::Finished(Err(error));
            },
            Ok(()) => {},
        }
        let wanted = match &self.process {
            Some(process) => process.wants_status(),
            None => true,
        };
        if wanted {
            AuthStep::Ask(turn)
        } else {
            self.resume_asked(shell, now, turn, Ok(None))
        }
    }

    /// Starts a poll of the attempt.
    pub fn poll(&mut self, shell: &mut ClientShellState, now: u64) -> (step: AuthStep)
        requires
            old(self).well_formed(),
            old(shell).auth.well_formed(),
            old(self).process is Some ==> now + VERIFY_TIMEOUT <= u64::MAX,
        ensures
            final(self).well_formed(),
            final(shell).auth.well_formed(),
            poll_begun(*old(self), *old(shell), now, *final(self), *final(shell), step@),
    {
        let overdue = match self.verifying_until {
            Some(deadline) => now >= deadline,
            None => false,
        };
        if overdue {
            return AuthStep::Finished(
                Err(
                    AuthError::new(
                        ErrorKind::TimedOut,
                        "SSH authenticated, but the machine did not reconnect. Close and try again.",
                    ),
                ),
            );
        }
        if self.process.is_none() {
            return AuthStep::Finished(Ok((false, false)));
        }
        let wanted = match shell.auth_popup_size() {
            Some(size) => size,
            None => self.size,
        };
        let size = (max_one(wanted.0), max_one(wanted.1));
        let resized = size.0 != self.size.0 || size.1 != self.size.1;
        let turn = PollTurn { size, resized, exit: None };
        if resized {
            AuthStep::Resize(turn)
        } else {
            self.pump(shell, now, turn)
        }
    }

    /// Goes on with a poll once the host has resized the PTY and the terminal.
    pub fn resume_resized(
        &mut self,
        shell: &mut ClientShellState,
        now: u64,
        turn: PollTurn,
        outcome: Result<(), AuthError>,
    ) -> (step: AuthStep)
        requires
            old(self).process is Some,
            old(self).well_formed(),
            old(shell).auth.well_formed(),
            outcome is Ok ==> now + VERIFY_TIMEOUT <= u64::MAX,
            turn.size.0 >= 1 && turn.size.1 >= 1,
        ensures
            final(self).well_formed(),
            final(shell).auth.well_formed(),
            poll_resized(
                *old(self),
                *old(shell),
                now,
                turn,
                result_view(outcome),
                *final(self),
                *final(shell),
                step@,
            ),
    {
        match outcome {
            Err(error) => AuthStep::Finished(Err(error)),
            Ok(()) => {
                self.size = turn.size;
                self.pump(shell, now, turn)
            },
        }
    }

    /// Goes on with a poll once the terminal has taken the output.
    pub fn resume_drawn(
        &mut self,
        shell: &mut ClientShellState,
        now: u64,
        turn: PollTurn,
        outcome: Result<Screen, AuthError>,
    ) -> (step: AuthStep)
        requires
            old(self).process is Some,
            old(self).well_formed(),
            old(shell).auth.well_formed(),
            turn.exit == Some(true) ==> now + VERIFY_TIMEOUT <= u64::MAX,
        ensures
            final(self).well_formed(),
            final(shell).auth.well_formed(),
            poll_drawn(
                *old(self),
                *old(shell),
                now,
                turn,
                outcome,
                *final(self),
                *final(shell),
                step@,
            ),
    {
        match outcome {
            Err(error) => AuthStep::Finished(Err(error)),
            Ok(screen) => {
                let cursor = if screen.cursor_visible {
                    screen.cursor
                } else {
                    None
                };
                shell.update_auth_popup(screen.text, cursor);
                let ghost updated = *shell;
                assert(updated.same_but_auth(*old(shell)));
                AuthStep::Finished(self.settle(shell, now, true, turn.exit))
            },
        }
    }
}

/// All that an attempt has to do with: itself, the supervisors, and the shell.
pub struct Situation {
    pub attempt: Option<Authentication>,
    pub supervisors: Map<EndpointIdView, Option<u64>>,
    pub shell: ClientShellState,
}

pub open spec fn situation(
    attempt: Option<Authentication>,
    supervisors: EndpointSupervisors,
    shell: ClientShellState,
) -> Situation {
    Situation { attempt, supervisors: supervisors@, shell }
}

/// Everything is valid.
pub open spec fn all_valid(
    attempt: Option<Authentication>,
    supervisors: EndpointSupervisors,
    shell: ClientShellState,
) -> bool {
    &&& attempt matches Some(auth) ==> auth.well_formed()
    &&& supervisors.well_formed()
    &&& shell.auth.well_formed()
}

impl Situation {
    /// The machine that the popup is open for.
    pub open spec fn popup_endpoint(self) -> Option<EndpointIdView> {
        match self.shell.auth@.popup {
            Some(popup) => Some(popup.endpoint),
            None => None,
        }
    }

    /// The attempt waits for the machine `id`.
    pub open spec fn verifies(self, id: EndpointIdView) -> bool {
        self.attempt matches Some(auth) && auth.verifying_until is Some && auth.endpoint() == id
    }

    /// The same, but for the popup, which shows that authentication failed.
    pub open spec fn popup_failed(self, after: Situation, message: Seq<char>) -> bool {
        &&& after.supervisors == self.supervisors
        &&& after.shell.same_but_auth(self.shell)
        &&& after.shell.auth@ == self.shell.auth@.failed(message)
    }

    /// The machine `id` wants attention, and is no longer tried by itself; the popup is `auth`.
    pub open spec fn needs_attention(
        self,
        after: Situation,
        id: EndpointIdView,
        auth: AuthView,
    ) -> bool {
        &&& after.supervisors == paused(self.supervisors, id)
        &&& after.shell == (ClientShellState {
            endpoints: after.shell.endpoints,
            auth: after.shell.auth,
            ..self.shell
        })
        &&& status_set(
            self.shell.endpoints@,
            after.shell.endpoints@,
            id,
            ClientEndpointStatus::Attention,
        )
        &&& after.shell.auth@ == auth
    }

    /// The attempt failed: it is over, its machine wants attention and is no longer tried by
    /// itself, and the popup tells why.
    pub open spec fn failed(self, after: Situation, message: Seq<char>) -> bool {
        &&& after.attempt is None
        &&& match self.attempt {
            Some(auth) => self.needs_attention(
                after,
                auth.endpoint(),
                self.shell.auth@.failed(message),
            ),
            None => self.popup_failed(after, message),
        }
    }
}

fn fail(
    attempt: &mut Option<Authentication>,
    supervisors: &mut EndpointSupervisors,
    shell: &mut ClientShellState,
    message: String,
)
    requires
        all_valid(*old(attempt), *old(supervisors), *old(shell)),
    ensures
        all_valid(*final(attempt), *final(supervisors), *final(shell)),
        situation(*old(attempt), *old(supervisors), *old(shell)).failed(
            situation(*final(attempt), *final(supervisors), *final(shell)),
            message@,
        ),
{
    if let Some(auth) = attempt.take() {
        let id = auth.endpoint_id();
        let _ = supervisors.pause_authentication(&id);
        shell.set_endpoint_status(&id, ClientEndpointStatus::Attention);
    }
    shell.auth_popup_failed(message);
}

/// The first of the profiles that is enabled and of the machine `id`.
pub open spec fn first_enabled(
    profiles: Seq<SavedSshEndpoint>,
    id: EndpointIdView,
) -> Option<SavedSshEndpoint>
    decreases profiles.len(),
{
    if profiles.len() == 0 {
        None
    } else if profiles[0].enabled && profiles[0].endpoint() == id {
        Some(profiles[0])
    } else {
        first_enabled(profiles.drop_first(), id)
    }
}

/// An attempt to start on a PTY of `cols` columns and `rows` rows.
#[derive(Debug, PartialEq, Eq)]
pub struct StartRequest {
    pub profile: SavedSshEndpoint,
    pub cols: u16,
    pub rows: u16,
}

fn find_enabled(profiles: &[SavedSshEndpoint], id: &ClientEndpointId) -> (found: Option<
    SavedSshEndpoint,
>)
    ensures
        found == first_enabled(profiles@, id@),
{
    let mut i: usize = 0;
    assert(profiles@.skip(0) =~= profiles@);
    while i < profiles.len()
        invariant
            i <= profiles.len(),
            first_enabled(profiles@.skip(i as int), id@) == first_enabled(profiles@, id@),
        decreases profiles.len() - i,
    {
        assert(profiles@.skip(i as int)[0] == profiles@[i as int]);
        if profiles[i].enabled && profiles[i].endpoint_id().same_as(id) {
            return Some(profiles[i].clone());
        }
        assert(profiles@.skip(i as int).drop_first() =~= profiles@.skip(i + 1));
        i += 1;
    }
    None
}

impl Situation {
    /// The request to authenticate to `id`: it counts only while no attempt is under way and
    /// the popup is open for `id`; the machine has to be an enabled one that is supervised.
    pub open spec fn start_asked(
        self,
        after: Situation,
        profiles: Seq<SavedSshEndpoint>,
        id: EndpointIdView,
        cols: u16,
        rows: u16,
        request: Option<StartRequest>,
    ) -> bool {
        &&& after.attempt == self.attempt
        &&& if self.attempt is Some || self.popup_endpoint() != Some(id) {
            after == self && request is None
        } else {
            match first_enabled(profiles, id) {
                None => {
                    &&& self.popup_failed(after, "This machine was removed or disabled."@)
                    &&& request is None
                },
                Some(profile) => {
                    &&& after.supervisors == paused(self.supervisors, id)
                    &&& after.shell == self.shell
                    &&& request == if self.supervisors.contains_key(id) {
                        Some(StartRequest { profile, cols, rows })
                    } else {
                        None
                    }
                },
            }
        }
    }

    /// Input for the attempt: it waits to be written, if a program still authenticates; too
    /// much of it ends the attempt.
    pub open spec fn input_given(self, after: Situation, bytes: Seq<u8>) -> bool {
        match self.attempt {
            Some(auth) => if auth.process is None {
                after == self
            } else if auth.pending_input@.len() + bytes.len() > INPUT_LIMIT {
                self.failed(after, "Authentication input is too large. Close and try again."@)
            } else {
                &&& after.attempt matches Some(now)
                &&& now == (Authentication { pending_input: now.pending_input, ..auth })
                &&& now.pending_input@ == auth.pending_input@ + bytes
                &&& after.supervisors == self.supervisors
                &&& after.shell == self.shell
            },
            None => after == self,
        }
    }

    /// The attempt is given up and the popup closed. The machine wants attention if the attempt
    /// was still to authenticate to it, under the profile that it still has.
    pub open spec fn cancelled(self, after: Situation, profiles: Seq<SavedSshEndpoint>) -> bool {
        let closed = self.shell.auth@.with_popup(None);
        &&& after.attempt is None
        &&& if self.attempt matches Some(auth) && auth.is_current(profiles)
            && auth.verifying_until is None {
            self.needs_attention(after, self.attempt->0.endpoint(), closed)
        } else {
            &&& after.supervisors == self.supervisors
            &&& after.shell.same_but_auth(self.shell)
            &&& after.shell.auth@ == closed
        }
    }
}

/// Does what the shell asks. Gives the attempt to start, if one is to be started: the host
/// starts its program, and what came of that goes to `started`.
pub fn command(
    asked: SshAuthCommand,
    attempt: &mut Option<Authentication>,
    profiles: &[SavedSshEndpoint],
    supervisors: &mut EndpointSupervisors,
    shell: &mut ClientShellState,
) -> (request: Option<StartRequest>)
    requires
        all_valid(*old(attempt), *old(supervisors), *old(shell)),
    ensures
        all_valid(*final(attempt), *final(supervisors), *final(shell)),
        ({
            let before = situation(*old(attempt), *old(supervisors), *old(shell));
            let after = situation(*final(attempt), *final(supervisors), *final(shell));
            match asked {
                SshAuthCommand::Start { endpoint_id, cols, rows } => before.start_asked(
                    after,
                    profiles@,
                    endpoint_id@,
                    cols,
                    rows,
                    request,
                ),
                SshAuthCommand::Input(bytes) => before.input_given(after, bytes@) && request
                    is None,
                SshAuthCommand::Cancel => before.cancelled(after, profiles@) && request is None,
            }
        }),
{
    match asked {
        SshAuthCommand::Start { endpoint_id, cols, rows } => {
            let for_popup = match shell.auth_popup_endpoint() {
                Some(id) => id.same_as(&endpoint_id),
                None => false,
            };
            if attempt.is_some() || !for_popup {
                return None;
            }
            match find_enabled(profiles, &endpoint_id) {
                None => {
                    shell.auth_popup_failed("This machine was removed or disabled.".to_string());
                    None
                },
                Some(profile) => {
                    if !supervisors.pause_authentication(&endpoint_id) {
                        return None;
                    }
                    Some(StartRequest { profile, cols, rows })
                },
            }
        },
        SshAuthCommand::Input(bytes) => {
            let too_large = match &*attempt {
                Some(auth) => {
                    if !auth.has_process() {
                        return None;
                    }
                    auth.pending_input.len().saturating_add(bytes.len()) > INPUT_LIMIT
                },
                None => {
                    return None;
                },
            };
            if too_large {
                fail(
                    attempt,
                    supervisors,
                    shell,
                    "Authentication input is too large. Close and try again.".to_string(),
                );
            } else if let Some(auth) = attempt {
                extend(&mut auth.pending_input, &bytes);
            }
            None
        },
        SshAuthCommand::Cancel => {
            if let Some(auth) = attempt.take() {
                if auth.matches_profile(profiles) && auth.verifying_until.is_none() {
                    let id = auth.endpoint_id();
                    let _ = supervisors.pause_authentication(&id);
                    shell.set_endpoint_status(&id, ClientEndpointStatus::Attention);
                }
            }
            shell.close_auth_popup();
            None
        },
    }
}

/// Begins the attempt that was asked for, with the process that the host started, or tells why
/// it could not be started.
pub fn started(
    attempt: &mut Option<Authentication>,
    shell: &mut ClientShellState,
    request: StartRequest,
    outcome: Result<SshAuthProcess, AuthError>,
)
    requires
        *old(attempt) is None,
        old(shell).auth.well_formed(),
    ensures
        *final(attempt) matches Some(auth) ==> auth.well_formed(),
        final(shell).auth.well_formed(),
        match outcome {
            Ok(process) => {
                &&& *final(attempt) matches Some(auth)
                &&& auth.profile == request.profile
                &&& auth.process == Some(process)
                &&& auth.pending_input@ == Seq::<u8>::empty()
                &&& auth.size == (at_least_one(request.cols), at_least_one(request.rows))
                &&& auth.verifying_until is None
                &&& *final(shell) == *old(shell)
            },
            Err(error) => {
                &&& *final(attempt) is None
                &&& final(shell).same_but_auth(*old(shell))
                &&& final(shell).auth@ == old(shell).auth@.failed(error.message@)
            },
        },
{
    match outcome {
        Ok(process) => {
            *attempt = Some(
                Authentication::start(request.profile, request.cols, request.rows, process),
            );
        },
        Err(error) => shell.auth_popup_failed(error.message),
    }
}

/// How far a poll got: it is done, with whether the popup is to be painted again, or it needs
/// something of the host first.
pub enum PollStep {
    Done(bool),
    /// Give the PTY and the terminal this size.
    Resize(PollTurn),
    /// Ask for the status of the program.
    Ask(PollTurn),
    /// Pass this output to the terminal, and see what it shows.
    Draw(PollTurn, Vec<u8>),
}

pub enum PollStepView {
    Done(bool),
    Resize(PollTurn),
    Ask(PollTurn),
    Draw(PollTurn, Seq<u8>),
}

impl View for PollStep {
    type V = PollStepView;

    open spec fn view(&self) -> PollStepView {
        match self {
            PollStep::Done(changed) => PollStepView::Done(*changed),
            PollStep::Resize(turn) => PollStepView::Resize(*turn),
            PollStep::Ask(turn) => PollStepView::Ask(*turn),
            PollStep::Draw(turn, output) => PollStepView::Draw(*turn, output@),
        }
    }
}

impl Situation {
    /// What follows from a step of the attempt's poll: where it finished, the machine is tried
    /// again after a success, and after an error the attempt is over. While it waited for the
    /// machine that concerns the popup only: background recovery still owns its retries.
    pub open spec fn concluded(
        self,
        after: Situation,
        now: u64,
        step: StepView,
        result: PollStepView,
    ) -> bool {
        &&& self.attempt matches Some(auth)
        &&& match step {
            StepView::Finished(Ok((changed, verify))) => {
                &&& after.attempt == self.attempt
                &&& after.shell == self.shell
                &&& after.supervisors == if verify {
                    retried(self.supervisors, auth.endpoint(), now)
                } else {
                    self.supervisors
                }
                &&& result == PollStepView::Done(changed)
            },
            StepView::Finished(Err(error)) => {
                &&& result == PollStepView::Done(true)
                &&& if auth.verifying_until is Some {
                    after.attempt is None && self.popup_failed(after, error.message)
                } else {
                    self.failed(after, error.message)
                }
            },
            StepView::Resize(turn) => after == self && result == PollStepView::Resize(turn),
            StepView::Ask(turn) => after == self && result == PollStepView::Ask(turn),
            StepView::Draw(turn, output) => after == self && result == PollStepView::Draw(
                turn,
                output,
            ),
        }
    }

    /// The same with another attempt and another shell.
    pub open spec fn with(self, auth: Authentication, shell: ClientShellState) -> Situation {
        Situation { attempt: Some(auth), supervisors: self.supervisors, shell }
    }

    /// A poll: an attempt whose profile changed is over, and nothing of its machine is touched;
    /// so is one whose popup is gone; any other goes its steps.
    pub open spec fn polled(
        self,
        after: Situation,
        profiles: Seq<SavedSshEndpoint>,
        now: u64,
        result: PollStepView,
    ) -> bool {
        match self.attempt {
            None => after == self && result == PollStepView::Done(false),
            Some(auth) => if !auth.is_current(profiles) {
                &&& after.attempt is None
                &&& self.popup_failed(
                    after,
                    "This machine changed or was removed. Close the popup and select it again."@,
                )
                &&& result == PollStepView::Done(true)
            } else if self.popup_endpoint() != Some(auth.endpoint()) {
                &&& after.attempt is None
                &&& after.shell == self.shell
                &&& after.supervisors == if auth.verifying_until is None {
                    paused(self.supervisors, auth.endpoint())
                } else {
                    self.supervisors
                }
                &&& result == PollStepView::Done(true)
            } else {
                exists|next: Authentication, shell: ClientShellState, step: StepView| #[trigger]
                    poll_begun(auth, self.shell, now, next, shell, step) && self.with(
                        next,
                        shell,
                    ).concluded(after, now, step, result)
            },
        }
    }
}

/// Draws the conclusions from a step of the attempt's poll.
fn conclude(
    auth: Authentication,
    attempt: &mut Option<Authentication>,
    supervisors: &mut EndpointSupervisors,
    shell: &mut ClientShellState,
    now: u64,
    step: AuthStep,
) -> (result: PollStep)
    requires
        auth.well_formed(),
        old(supervisors).well_formed(),
        old(shell).auth.well_formed(),
    ensures
        all_valid(*final(attempt), *final(supervisors), *final(shell)),
        situation(Some(auth), *old(supervisors), *old(shell)).concluded(
            situation(*final(attempt), *final(supervisors), *final(shell)),
            now,
            step@,
            result@,
        ),
{
    let id = auth.endpoint_id();
    let verifying = auth.verifying_until.is_some();
    *attempt = Some(auth);
    match step {
        AuthStep::Finished(Ok((changed, verify))) => {
            if verify {
                supervisors.retry_after_authentication(&id, now);
            }
            PollStep::Done(changed)
        },
        AuthStep::Finished(Err(error)) => {
            if verifying {
                *attempt = None;
                shell.auth_popup_failed(error.message);
            } else {
                fail(attempt, supervisors, shell, error.message);
            }
            PollStep::Done(true)
        },
        AuthStep::Resize(turn) => PollStep::Resize(turn),
        AuthStep::Ask(turn) => PollStep::Ask(turn),
        AuthStep::Draw(turn, output) => PollStep::Draw(turn, output),
    }
}

/// Polls the attempt.
pub fn poll(
    attempt: &mut Option<Authentication>,
    profiles: &[SavedSshEndpoint],
    supervisors: &mut EndpointSupervisors,
    shell: &mut ClientShellState,
    now: u64,
) -> (result: PollStep)
    requires
        all_valid(*old(attempt), *old(supervisors), *old(shell)),
        is_polling(*old(attempt)) ==> now + VERIFY_TIMEOUT <= u64::MAX,
    ensures
        all_valid(*final(attempt), *final(supervisors), *final(shell)),
        situation(*old(attempt), *old(supervisors), *old(shell)).polled(
            situation(*final(attempt), *final(supervisors), *final(shell)),
            profiles@,
            now,
            result@,
        ),
{
    let mut auth = match attempt.take() {
        Some(auth) => auth,
        None => {
            return PollStep::Done(false);
        },
    };
    if !auth.matches_profile(profiles) {
        shell.auth_popup_failed(
            "This machine changed or was removed. Close the popup and select it again.".to_string(),
        );
        return PollStep::Done(true);
    }
    let id = auth.endpoint_id();
    let for_popup = match shell.auth_popup_endpoint() {
        Some(popup) => popup.same_as(&id),
        None => false,
    };
    if !for_popup {
        if auth.verifying_until.is_none() {
            let _ = supervisors.pause_authentication(&id);
        }
        return PollStep::Done(true);
    }
    let step = auth.poll(shell, now);
    conclude(auth, attempt, supervisors, shell, now, step)
}

/// The attempt is in the middle of a poll.
pub open spec fn is_polling(attempt: Option<Authentication>) -> bool {
    attempt matches Some(auth) && auth.process is Some
}

/// Goes on with a poll once the host has resized the PTY and the terminal, or failed to.
pub fn poll_after_resize(
    attempt: &mut Option<Authentication>,
    supervisors: &mut EndpointSupervisors,
    shell: &mut ClientShellState,
    now: u64,
    turn: PollTurn,
    outcome: Result<(), AuthError>,
) -> (result: PollStep)
    requires
        is_polling(*old(attempt)),
        all_valid(*old(attempt), *old(supervisors), *old(shell)),
        outcome is Ok ==> now + VERIFY_TIMEOUT <= u64::MAX,
        turn.size.0 >= 1 && turn.size.1 >= 1,
    ensures
        all_valid(*final(attempt), *final(supervisors), *final(shell)),
        ({
            let before = situation(*old(attempt), *old(supervisors), *old(shell));
            let after = situation(*final(attempt), *final(supervisors), *final(shell));
            exists|next: Authentication, middle: ClientShellState, step: StepView| #[trigger]
                poll_resized(
                    (*old(attempt))->0,
                    *old(shell),
                    now,
                    turn,
                    result_view(outcome),
                    next,
                    middle,
                    step,
                ) && before.with(next, middle).concluded(after, now, step, result@)
        }),
{
    match attempt.take() {
        Some(auth) => {
            let mut auth = auth;
            let step = auth.resume_resized(shell, now, turn, outcome);
            conclude(auth, attempt, supervisors, shell, now, step)
        },
        None => PollStep::Done(false),
    }
}

/// Goes on with a poll once the program was asked for its status.
pub fn poll_after_status(
    attempt: &mut Option<Authentication>,
    supervisors: &mut EndpointSupervisors,
    shell: &mut ClientShellState,
    now: u64,
    turn: PollTurn,
    waited: Result<Option<bool>, AuthError>,
) -> (result: PollStep)
    requires
        is_polling(*old(attempt)),
        all_valid(*old(attempt), *old(supervisors), *old(shell)),
        now + VERIFY_TIMEOUT <= u64::MAX,
    ensures
        all_valid(*final(attempt), *final(supervisors), *final(shell)),
        ({
            let before = situation(*old(attempt), *old(supervisors), *old(shell));
            let after = situation(*final(attempt), *final(supervisors), *final(shell));
            exists|next: Authentication, middle: ClientShellState, step: StepView| #[trigger]
                output_taken(
                    (*old(attempt))->0,
                    *old(shell),
                    now,
                    turn,
                    result_view(waited),
                    next,
                    middle,
                    step,
                ) && before.with(next, middle).concluded(after, now, step, result@)
        }),
{
    match attempt.take() {
        Some(auth) => {
            let mut auth = auth;
            let step = auth.resume_asked(shell, now, turn, waited);
            conclude(auth, attempt, supervisors, shell, now, step)
        },
        None => PollStep::Done(false),
    }
}

/// Goes on with a poll once the terminal has taken the output, or failed to.
pub fn poll_after_draw(
    attempt: &mut Option<Authentication>,
    supervisors: &mut EndpointSupervisors,
    shell: &mut ClientShellState,
    now: u64,
    turn: PollTurn,
    outcome: Result<Screen, AuthError>,
) -> (result: PollStep)
    requires
        is_polling(*old(attempt)),
        all_valid(*old(attempt), *old(supervisors), *old(shell)),
        turn.exit == Some(true) ==> now + VERIFY_TIMEOUT <= u64::MAX,
    ensures
        all_valid(*final(attempt), *final(supervisors), *final(shell)),
        ({
            let before = situation(*old(attempt), *old(supervisors), *old(shell));
            let after = situation(*final(attempt), *final(supervisors), *final(shell));
            exists|next: Authentication, middle: ClientShellState, step: StepView| #[trigger]
                poll_drawn(
                    (*old(attempt))->0,
                    *old(shell),
                    now,
                    turn,
                    outcome,
                    next,
                    middle,
                    step,
                ) && before.with(next, middle).concluded(after, now, step, result@)
        }),
{
    match attempt.take() {
        Some(auth) => {
            let mut auth = auth;
            let step = auth.resume_drawn(shell, now, turn, outcome);
            conclude(auth, attempt, supervisors, shell, now, step)
        },
        None => PollStep::Done(false),
    }
}

/// The machine `endpoint_id` has reconnected: an attempt that waited for it is over, and its
/// popup closed.
pub fn verified(
    attempt: &mut Option<Authentication>,
    endpoint_id: &ClientEndpointId,
    shell: &mut ClientShellState,
)
    requires
        *old(attempt) matches Some(auth) ==> auth.well_formed(),
        old(shell).auth.well_formed(),
    ensures
        *final(attempt) matches Some(auth) ==> auth.well_formed(),
        final(shell).auth.well_formed(),
        if *old(attempt) matches Some(auth) && auth.verifying_until is Some && auth.endpoint()
            == endpoint_id@ {
            &&& *final(attempt) is None
            &&& final(shell).same_but_auth(*old(shell))
            &&& final(shell).auth@ == old(shell).auth@.with_popup(None)
        } else {
            *final(attempt) == *old(attempt) && *final(shell) == *old(shell)
        },
{
    let over = match &*attempt {
        Some(auth) => auth.verifying_until.is_some() && auth.endpoint_id().same_as(endpoint_id),
        None => false,
    };
    if over {
        *attempt = None;
        shell.close_auth_popup();
    }
}

impl Situation {
    /// The machine `id` could not be reached, for the reason `message`: an attempt that waits
    /// for it has failed if the machine wants attention; any other error may pass.
    pub open spec fn rejected(self, after: Situation, id: EndpointIdView, message: Seq<char>) -> bool {
        if status_of(self.shell.endpoints@, id) == Some(ClientEndpointStatus::Attention)
            && self.verifies(id) {
            self.failed(after, message)
        } else {
            after == self
        }
    }
}

/// The machine `endpoint_id` could not be reached.
pub fn rejected(
    attempt: &mut Option<Authentication>,
    endpoint_id: &ClientEndpointId,
    supervisors: &mut EndpointSupervisors,
    shell: &mut ClientShellState,
    message: &str,
)
    requires
        all_valid(*old(attempt), *old(supervisors), *old(shell)),
    ensures
        all_valid(*final(attempt), *final(supervisors), *final(shell)),
        situation(*old(attempt), *old(supervisors), *old(shell)).rejected(
            situation(*final(attempt), *final(supervisors), *final(shell)),
            endpoint_id@,
            message@,
        ),
{
    let wants_attention = match shell.endpoint_status(endpoint_id) {
        Some(status) => status == ClientEndpointStatus::Attention,
        None => false,
    };
    let verifies = match &*attempt {
        Some(auth) => auth.verifying_until.is_some() && auth.endpoint_id().same_as(endpoint_id),
        None => false,
    };
    if wants_attention && verifies {
        fail(attempt, supervisors, shell, message.to_string());
    }
}

proof fn lemma_cut(pending: Seq<u8>)
    ensures
        forall|i: int|
            0 <= i < cut(pending).len() ==> 1 <= (#[trigger] cut(pending)[i]).len()
                <= MAX_WRITE_BYTES,
    decreases pending.len(),
{
    if pending.len() > 0 {
        let rest = pending.skip(next_chunk(pending).len() as int);
        lemma_cut(rest);
        assert forall|i: int| 0 <= i < cut(pending).len() implies 1 <= (#[trigger] cut(
            pending,
        )[i]).len() <= MAX_WRITE_BYTES by {
            if i > 0 {
                assert(cut(pending)[i] == cut(rest)[i - 1]);
            }
        }
    }
}

proof fn lemma_all_sent(offers: Seq<(Seq<u8>, SendOutcome)>, pieces: Seq<Seq<u8>>)
    ensures
        sent_pieces(offers + all_sent(pieces)) == sent_pieces(offers) + pieces,
    decreases pieces.len(),
{
    let more = offers + all_sent(pieces);
    if pieces.len() == 0 {
        assert(more =~= offers);
        assert(sent_pieces(offers) + pieces =~= sent_pieces(offers));
    } else {
        lemma_all_sent(offers, pieces.drop_last());
        assert(more.drop_last() =~= offers + all_sent(pieces.drop_last()));
        assert(more.last() == (pieces.last(), SendOutcome::Sent));
        assert(sent_pieces(more) =~= sent_pieces(offers) + pieces);
    }
}

/// Of the input that waited, what now went into the channel, piece after piece, followed by what
/// still waits, is what waited before: no byte is lost, repeated or out of order. Each piece has a
/// byte at least and no more than a write takes. If something still waits, the channel was full or
/// an error is told.
pub proof fn law_input_kept_in_order(
    before: Authentication,
    after: Authentication,
    result: Result<(), ErrorView>,
) -> (pieces: Seq<Seq<u8>>)
    requires
        flushed(before, after, result),
    ensures
        after.process->0@.pieces() == before.process->0@.pieces() + pieces,
        pieces.flatten() + after.pending_input@ == before.pending_input@,
        forall|i: int|
            0 <= i < pieces.len() ==> 1 <= (#[trigger] pieces[i]).len() <= MAX_WRITE_BYTES,
        after.pending_input@.len() > 0 && result is Ok ==> (after.process->0@.input matches Some(
            offers,
        ) && offers.len() > 0 && offers.last().1 == SendOutcome::Full),
        result matches Err(error) ==> error == broken_pipe(),
{
    let process = before.process->0@;
    let now = after.process->0@;
    let (n, refusal) = choose|n: int, refusal: SendOutcome| #[trigger]
        flush_run(
            process,
            before.pending_input@,
            n,
            refusal,
            now,
            after.pending_input@,
            result,
        );
    let all = cut(before.pending_input@);
    let pieces = all.take(n);
    lemma_cut(before.pending_input@);
    assert forall|i: int| 0 <= i < pieces.len() implies 1 <= (#[trigger] pieces[i]).len()
        <= MAX_WRITE_BYTES by {
        assert(pieces[i] == all[i]);
    }
    assert(process.pieces() + Seq::<Seq<u8>>::empty() =~= process.pieces());
    if n == all.len() {
        assert(pieces =~= all);
        lemma_cut_flattens(before.pending_input@);
    }
    if process.input is Some {
        lemma_all_sent(process.input->0, pieces);
        if n < all.len() {
            let sent = process.input->0 + all_sent(pieces);
            assert(now.input->0.drop_last() =~= sent);
        }
    } else {
        assert(pieces =~= seq![]);
    }
    pieces
}

proof fn lemma_cut_flattens(pending: Seq<u8>)
    ensures
        cut(pending).flatten() == pending,
    decreases pending.len(),
{
    if pending.len() > 0 {
        let rest = pending.skip(next_chunk(pending).len() as int);
        lemma_cut_flattens(rest);
        assert(cut(pending).drop_first() =~= cut(rest));
        assert(next_chunk(pending) + rest =~= pending);
    } else {
        assert(cut(pending).flatten() =~= pending);
    }
}

/// Polling an attempt whose profile has changed, was disabled or was removed ends it, and leaves
/// every machine as it was: its supervision and its status.
pub proof fn law_obsolete_poll_spares_machines(
    before: Situation,
    after: Situation,
    profiles: Seq<SavedSshEndpoint>,
    now: u64,
    result: PollStepView,
    id: EndpointIdView,
)
    requires
        before.polled(after, profiles, now, result),
        before.attempt matches Some(auth) && !auth.is_current(profiles),
    ensures
        after.attempt is None,
        result == PollStepView::Done(true),
        after.supervisors == before.supervisors,
        status_of(after.shell.endpoints@, id) == status_of(before.shell.endpoints@, id),
{
}

/// Giving up an attempt whose profile has changed, was disabled or was removed, or one that
/// only waits for its machine, leaves every machine as it was: its supervision and its status.
pub proof fn law_cancel_spares_machines(
    before: Situation,
    after: Situation,
    profiles: Seq<SavedSshEndpoint>,
    id: EndpointIdView,
)
    requires
        before.cancelled(after, profiles),
        before.attempt matches Some(auth) ==> !auth.is_current(profiles)
            || auth.verifying_until is Some,
    ensures
        after.attempt is None,
        after.shell.auth@.popup is None,
        after.supervisors == before.supervisors,
        status_of(after.shell.endpoints@, id) == status_of(before.shell.endpoints@, id),
{
}

/// A machine that does not reconnect in time ends the attempt and fails the popup, which stays
/// open; background recovery goes on as before.
pub proof fn law_timeout_spares_recovery(
    before: Situation,
    after: Situation,
    profiles: Seq<SavedSshEndpoint>,
    now: u64,
    result: PollStepView,
    id: EndpointIdView,
)
    requires
        before.polled(after, profiles, now, result),
        before.attempt matches Some(auth) && auth.is_current(profiles) && is_overdue(auth, now)
            && before.popup_endpoint() == Some(auth.endpoint()),
    ensures
        after.attempt is None,
        result == PollStepView::Done(true),
        after.supervisors == before.supervisors,
        status_of(after.shell.endpoints@, id) == status_of(before.shell.endpoints@, id),
        after.popup_endpoint() == before.popup_endpoint(),
        after.shell.auth@.popup matches Some(popup) && popup.phase == Phase::Failed,
{
}

/// Until its machine has had its time, an attempt that waits for it is left alone by a poll, and so
/// is everything else.
pub proof fn law_waiting_poll_changes_nothing(
    before: Situation,
    after: Situation,
    profiles: Seq<SavedSshEndpoint>,
    now: u64,
    result: PollStepView,
)
    requires
        before.polled(after, profiles, now, result),
        before.attempt matches Some(auth) && auth.well_formed() && auth.is_current(profiles)
            && auth.verifying_until is Some && !is_overdue(auth, now) && before.popup_endpoint()
            == Some(auth.endpoint()),
    ensures
        after == before,
        result == PollStepView::Done(false),
{
}

/// A transient error while the attempt waits for its machine changes nothing: the attempt and
/// the retry go on.
pub proof fn law_transient_error_changes_nothing(
    before: Situation,
    after: Situation,
    id: EndpointIdView,
    message: Seq<char>,
)
    requires
        before.rejected(after, id, message),
        status_of(before.shell.endpoints@, id) != Some(ClientEndpointStatus::Attention),
    ensures
        after == before,
{
}

/// An attempt that fails is over: its machine wants attention and is not tried by itself, every
/// other machine is as it was, and the popup stays open on the failure.
pub proof fn law_failure_stops_retries(
    before: Situation,
    after: Situation,
    message: Seq<char>,
    other: EndpointIdView,
)
    requires
        before.failed(after, message),
        before.attempt is Some,
    ensures
        after.attempt is None,
        ({
            let id = before.attempt->0.endpoint();
            &&& before.supervisors.contains_key(id) ==> after.supervisors[id] is None
            &&& status_of(before.shell.endpoints@, id) is Some ==> status_of(
                after.shell.endpoints@,
                id,
            ) == Some(ClientEndpointStatus::Attention)
            &&& other != id ==> status_of(after.shell.endpoints@, other) == status_of(
                before.shell.endpoints@,
                other,
            )
            &&& other != id && before.supervisors.contains_key(other)
                ==> after.supervisors.contains_key(other) && after.supervisors[other]
                == before.supervisors[other]
        }),
        after.popup_endpoint() == before.popup_endpoint(),
        after.shell.auth@.popup matches Some(popup) ==> popup.phase == Phase::Failed,
{
    let id = before.attempt->0.endpoint();
    law_status_set(
        before.shell.endpoints@,
        after.shell.endpoints@,
        id,
        ClientEndpointStatus::Attention,
        id,
    );
    law_status_set(
        before.shell.endpoints@,
        after.shell.endpoints@,
        id,
        ClientEndpointStatus::Attention,
        other,
    );
}

/// A permanent error while the attempt waits for its machine fails the attempt.
pub proof fn law_permanent_error_fails(
    before: Situation,
    after: Situation,
    id: EndpointIdView,
    message: Seq<char>,
)
    requires
        before.rejected(after, id, message),
        before.verifies(id),
        status_of(before.shell.endpoints@, id) == Some(ClientEndpointStatus::Attention),
    ensures
        before.failed(after, message),
{
}

/// Success of the program leaves the attempt waiting for its machine, with nothing left to be
/// written; the popup says so, and the machine is tried again at once.
pub proof fn law_success_retries_machine(
    before: Situation,
    middle: Situation,
    after: Situation,
    now: u64,
    changed: bool,
    result: Result<(bool, bool), ErrorView>,
    step: PollStepView,
)
    requires
        before.attempt is Some,
        middle.attempt is Some,
        middle.supervisors == before.supervisors,
        settled(
            before.attempt->0,
            before.shell,
            now,
            changed,
            Some(true),
            middle.attempt->0,
            middle.shell,
            result,
        ),
        middle.concluded(after, now, StepView::Finished(result), step),
        now + VERIFY_TIMEOUT <= u64::MAX,
    ensures
        step == PollStepView::Done(true),
        after.attempt matches Some(auth) && auth.process is None && auth.pending_input@.len() == 0
            && auth.profile == (before.attempt->0).profile && auth.verifying_until == Some(
            (now + VERIFY_TIMEOUT) as u64,
        ),
        after.supervisors == retried(before.supervisors, before.attempt->0.endpoint(), now),
        after.shell.auth@ == before.shell.auth@.verifying(),
        after.shell.endpoints == before.shell.endpoints,
{
}

/// While an attempt is under way, asking for another changes nothing.
pub proof fn law_one_attempt_at_a_time(
    before: Situation,
    after: Situation,
    profiles: Seq<SavedSshEndpoint>,
    id: EndpointIdView,
    cols: u16,
    rows: u16,
    request: Option<StartRequest>,
)
    requires
        before.start_asked(after, profiles, id, cols, rows, request),
        before.attempt is Some,
    ensures
        after == before,
        request is None,
{
}

} // verus!
