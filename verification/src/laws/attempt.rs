//! What becomes of an authentication attempt.
use vstd::prelude::*;

use crate::endpoint::{
    ClientEndpointId, ClientEndpointStatus, EndpointIdView, EndpointSupervisors, SavedSshEndpoint,
};
use crate::error::{result_view, AuthError, ErrorKind, ErrorView};
use crate::shell::auth::{AuthView, Phase, SshAuthCommand};
use crate::shell::{status_of, ClientShellEndpoint, ClientShellState};
use crate::ssh_auth::{law_no_output_dropped, PollView, ProcessView, SendOutcome, SshAuthProcess};
use crate::ssh_authentication::{
    all_sent, command, cut, first_enabled, flush_run, flushed, next_chunk, output_taken, poll,
    poll_after_draw, poll_after_resize, poll_after_status, poll_begun, poll_resized, pumped,
    rejected, same_target, settled, situation, started, verified, AuthStep, Authentication,
    PollStep, PollTurn, Screen, StartRequest, StepView,
};
use crate::text::{
    failure_chars, failure_text, is_safe, is_safe_char, law_safe_text, safe_chars, safe_text,
};

verus! {

/// The machine that an attempt is for.
pub open spec fn machine_of(auth: Authentication) -> EndpointIdView {
    EndpointIdView::Ssh(auth.profile.id@)
}

/// A profile is enabled and has the attempt's id, target and session.
pub open spec fn leads_to_same(auth: Authentication, profile: SavedSshEndpoint) -> bool {
    &&& profile.enabled
    &&& profile.id@ == auth.profile.id@
    &&& profile.target@ == auth.profile.target@
    &&& profile.session@ == auth.profile.session@
}

/// The popup is open for the attempt's machine.
pub open spec fn shows(shell: ClientShellState, id: EndpointIdView) -> bool {
    shell.auth.popup matches Some(popup) && popup.endpoint@ == id
}

/// The same machines are listed, each with the status that it had, but for `id`, which has
/// `status`.
pub open spec fn only_status_of(
    before: Seq<ClientShellEndpoint>,
    after: Seq<ClientShellEndpoint>,
    id: EndpointIdView,
    status: ClientEndpointStatus,
) -> bool {
    &&& after.len() == before.len()
    &&& forall|j: int|
        #![trigger after[j]]
        #![trigger before[j]]
        0 <= j < before.len() ==> {
            &&& after[j].endpoint_id@ == before[j].endpoint_id@
            &&& after[j].label@ == before[j].label@
            &&& after[j].status == if before[j].endpoint_id@ == id {
                status
            } else {
                before[j].status
            }
        }
}

/// The same machines are tried at the same times, but for `id`, which is tried at `at` if it is
/// tried at all.
pub open spec fn only_schedule_of(
    before: Map<EndpointIdView, Option<u64>>,
    after: Map<EndpointIdView, Option<u64>>,
    id: EndpointIdView,
    at: Option<u64>,
) -> bool {
    forall|other: EndpointIdView|
        #![trigger after.contains_key(other)]
        #![trigger before.contains_key(other)]
        {
            &&& after.contains_key(other) == before.contains_key(other)
            &&& before.contains_key(other) ==> after[other] == if other == id {
                at
            } else {
                before[other]
            }
        }
}

/// Nothing of the shell but the popup differs, and a popup is open if one was, for the same
/// machine and of the same size.
pub open spec fn only_popup_differs(before: ClientShellState, after: ClientShellState) -> bool {
    &&& after == (ClientShellState { auth: after.auth, ..before })
    &&& after.auth@.required == before.auth@.required
    &&& after.auth@.hover == before.auth@.hover
    &&& same_popup_place(before, after)
}

pub open spec fn same_popup_place(before: ClientShellState, after: ClientShellState) -> bool {
    match before.auth.popup {
        None => after.auth.popup is None,
        Some(popup) => after.auth.popup matches Some(now) && now.endpoint@ == popup.endpoint@
            && now.size == popup.size && now.cancel == popup.cancel,
    }
}

/// The popup, if it is open, says that authentication failed.
pub open spec fn tells_failure(shell: ClientShellState) -> bool {
    shell.auth.popup matches Some(popup) ==> popup.phase == Phase::Failed && popup.cursor is None
}

/// What the popup says, if it is open, begins with `message` and a blank line.
pub open spec fn gives_reason(shell: ClientShellState, message: Seq<char>) -> bool {
    shell.auth.popup matches Some(popup) ==> begins_with(
        popup.text@,
        message + seq!['\n', '\n'],
    )
}

/// The popup, if it is open, says what a popup that fails for the reason `message` says of what it
/// showed before.
pub open spec fn keeps_output_below(
    before: ClientShellState,
    after: ClientShellState,
    message: Seq<char>,
) -> bool {
    before.auth.popup matches Some(popup) ==> after.auth.popup matches Some(now) && now.text@
        == failure_chars(message, popup.text@, popup.size.1)
}

pub open spec fn begins_with(s: Seq<char>, start: Seq<char>) -> bool {
    s.len() >= start.len() && s.take(start.len() as int) == start
}

/// A message that is shown in full: short, and without control characters but line feeds.
pub open spec fn is_shown_in_full(message: Seq<char>) -> bool {
    message.len() <= 4096 && has_no_controls(message)
}

/// No character is a control character, but for line feeds.
pub open spec fn has_no_controls(s: Seq<char>) -> bool {
    forall|i: int|
        0 <= i < s.len() ==> (#[trigger] s[i]) == '\n' || 0x20 <= s[i] as u32 <= 0x7e || s[i] as u32
            >= 0xa0
}

/// A failed popup gives a reason that is shown in full.
pub(crate) proof fn lemma_reason(message: Seq<char>, output: Seq<char>, rows: u16)
    requires
        is_shown_in_full(message),
    ensures
        begins_with(failure_chars(message, output, rows), message + seq!['\n', '\n']),
{
    lemma_unfiltered(message);
    let text = failure_chars(message, output, rows);
    let start = message + seq!['\n', '\n'];
    assert(text.take(start.len() as int) =~= start);
}

pub(crate) proof fn lemma_unfiltered(s: Seq<char>)
    requires
        has_no_controls(s),
    ensures
        safe_chars(s) == s,
{
    assert(is_safe(s)) by {
        assert forall|i: int| 0 <= i < s.len() implies is_safe_char(#[trigger] s[i]) by {}
    }
    law_safe_text(s);
}

/// The attempt failed: it is over, its machine wants attention and is not tried by itself, no
/// other machine is touched, and the popup says so.
pub open spec fn over_in_failure(
    auth: Authentication,
    supervisors: EndpointSupervisors,
    shell: ClientShellState,
    attempt_after: Option<Authentication>,
    supervisors_after: EndpointSupervisors,
    shell_after: ClientShellState,
) -> bool {
    &&& attempt_after is None
    &&& only_schedule_of(supervisors@, supervisors_after@, machine_of(auth), None)
    &&& only_status_of(
        shell.endpoints@,
        shell_after.endpoints@,
        machine_of(auth),
        ClientEndpointStatus::Attention,
    )
    &&& same_popup_place(shell, shell_after)
    &&& tells_failure(shell_after)
    &&& shell_after == (ClientShellState {
        endpoints: shell_after.endpoints,
        auth: shell_after.auth,
        ..shell
    })
    &&& shell_after.auth@.required == shell.auth@.required
    &&& shell_after.auth@.hover == shell.auth@.hover
}

/// The attempt waits for its machine, which has half a minute and is tried at once; there is
/// nothing left to be written, and the popup says so.
pub open spec fn waits_for_machine(
    auth: Authentication,
    now: u64,
    supervisors: EndpointSupervisors,
    shell: ClientShellState,
    attempt_after: Option<Authentication>,
    supervisors_after: EndpointSupervisors,
    shell_after: ClientShellState,
) -> bool {
    &&& attempt_after matches Some(waiting)
    &&& waiting.profile == auth.profile
    &&& waiting.size == auth.size
    &&& waiting.process is None
    &&& waiting.pending_input@.len() == 0
    &&& waiting.verifying_until == Some((now + 30_000_000_000) as u64)
    &&& only_schedule_of(supervisors@, supervisors_after@, machine_of(auth), Some(now))
    &&& only_popup_differs(shell, shell_after)
    &&& shell_after.auth.popup matches Some(popup) ==> popup.phase == Phase::Verifying
        && popup.cursor is None && popup.text@ == "Verifying connection…"@
}

/// The attempt goes on, but for its process and what waits to be written.
pub open spec fn same_attempt(auth: Authentication, after: Option<Authentication>) -> bool {
    &&& after matches Some(now)
    &&& now.process is Some
    &&& now.profile == auth.profile
    &&& now.size == auth.size
    &&& now.verifying_until is None
}

/// The attempt is one that authenticates.
pub open spec fn authenticates(attempt: Option<Authentication>) -> bool {
    attempt matches Some(auth) && auth.process is Some && auth.well_formed()
}

/// What is known of the program's end once its status was asked for.
pub open spec fn known_exit(process: ProcessView, waited: Result<Option<bool>, AuthError>) -> Option<
    bool,
> {
    if process.exit is Some {
        process.exit
    } else {
        match waited {
            Ok(status) => status,
            Err(_) => None,
        }
    }
}

/// An attempt is current exactly where one of the profiles, at whatever position, is enabled and
/// has the attempt's id, target and session.
pub proof fn law_current_is_any_profile(
    auth: Authentication,
    profiles: &[SavedSshEndpoint],
    current: bool,
)
    requires
        call_ensures(Authentication::matches_profile, (&auth, profiles), current),
    ensures
        current == exists|i: int|
            0 <= i < profiles@.len() && leads_to_same(auth, #[trigger] profiles@[i]),
{
    lemma_current(auth, profiles@);
}

/// A program that ended without success fails the attempt, also where its last output is drawn in
/// the same poll; the popup gives the reason above that output.
pub proof fn law_failed_program_fails_attempt(
    attempt: &mut Option<Authentication>,
    supervisors: &mut EndpointSupervisors,
    shell: &mut ClientShellState,
    now: u64,
    turn: PollTurn,
    screen: Screen,
    result: PollStep,
)
    requires
        call_ensures(
            poll_after_draw,
            (attempt, supervisors, shell, now, turn, Ok(screen)),
            result,
        ),
        authenticates(*old(attempt)),
        old(shell).auth.well_formed(),
        turn.exit == Some(false),
    ensures
        over_in_failure(
            (*old(attempt))->0,
            *old(supervisors),
            *old(shell),
            *final(attempt),
            *final(supervisors),
            *final(shell),
        ),
        gives_reason(
            *final(shell),
            "SSH authentication did not complete. Close the popup and try again."@,
        ),
        result == PollStep::Done(true),
{
    let message = "SSH authentication did not complete. Close the popup and try again."@;
    reveal_strlit("SSH authentication did not complete. Close the popup and try again.");
    lemma_drawn_reason(old(shell).auth@, screen, message);
}

/// The reason is given whether or not the last output was drawn before.
proof fn lemma_drawn_reason(auth: AuthView, screen: Screen, message: Seq<char>)
    requires
        is_shown_in_full(message),
    ensures
        auth.updated(screen.text@, screen.shown_cursor()).failed(message).popup matches Some(popup)
            ==> begins_with(popup.text, message + seq!['\n', '\n']),
        auth.failed(message).popup matches Some(popup) ==> begins_with(
            popup.text,
            message + seq!['\n', '\n'],
        ),
{
    if let Some(popup) = auth.popup {
        let drawn = popup.updated(screen.text@, screen.shown_cursor());
        lemma_reason(message, drawn.text, drawn.size.1);
        lemma_reason(message, popup.text, popup.size.1);
    }
}

/// A program that ended with success leaves the attempt waiting for its machine, also where its
/// last output is drawn in the same poll.
pub proof fn law_successful_program_waits_for_machine(
    attempt: &mut Option<Authentication>,
    supervisors: &mut EndpointSupervisors,
    shell: &mut ClientShellState,
    now: u64,
    turn: PollTurn,
    screen: Screen,
    result: PollStep,
)
    requires
        call_ensures(
            poll_after_draw,
            (attempt, supervisors, shell, now, turn, Ok(screen)),
            result,
        ),
        authenticates(*old(attempt)),
        turn.exit == Some(true),
        now + 30_000_000_000 <= u64::MAX,
    ensures
        waits_for_machine(
            (*old(attempt))->0,
            now,
            *old(supervisors),
            *old(shell),
            *final(attempt),
            *final(supervisors),
            *final(shell),
        ),
        result == PollStep::Done(true),
{
}

/// While the program runs, drawing changes nothing but what the popup shows: the terminal's text
/// without control characters, and its cursor where it is visible, as long as the popup still
/// authenticates.
pub proof fn law_drawing_shows_the_terminal(
    attempt: &mut Option<Authentication>,
    supervisors: &mut EndpointSupervisors,
    shell: &mut ClientShellState,
    now: u64,
    turn: PollTurn,
    screen: Screen,
    result: PollStep,
)
    requires
        call_ensures(
            poll_after_draw,
            (attempt, supervisors, shell, now, turn, Ok(screen)),
            result,
        ),
        authenticates(*old(attempt)),
        turn.exit is None,
    ensures
        *final(attempt) == *old(attempt),
        final(supervisors)@ == old(supervisors)@,
        only_popup_differs(*old(shell), *final(shell)),
        old(shell).auth.popup matches Some(popup) ==> {
            &&& final(shell).auth.popup matches Some(now)
            &&& now.phase == popup.phase
            &&& if popup.phase == Phase::Authenticating {
                &&& has_no_controls(now.text@)
                &&& has_no_controls(screen.text@) ==> now.text@ == screen.text@
                &&& now.cursor == if screen.cursor_visible {
                    screen.cursor
                } else {
                    None
                }
            } else {
                now.text@ == popup.text@ && now.cursor == popup.cursor
            }
        },
        result == PollStep::Done(true),
{
    law_safe_text(screen.text@);
    let shown = safe_chars(screen.text@);
    assert(has_no_controls(shown)) by {
        assert forall|i: int| 0 <= i < shown.len() implies (#[trigger] shown[i]) == '\n' || 0x20
            <= shown[i] as u32 <= 0x7e || shown[i] as u32 >= 0xa0 by {
            assert(is_safe_char(shown[i]));
        }
    }
    if has_no_controls(screen.text@) {
        lemma_unfiltered(screen.text@);
    }
}

/// What the terminal or the PTY fails at ends the attempt: a failed drawing does.
pub proof fn law_failed_drawing_fails_attempt(
    attempt: &mut Option<Authentication>,
    supervisors: &mut EndpointSupervisors,
    shell: &mut ClientShellState,
    now: u64,
    turn: PollTurn,
    error: AuthError,
    result: PollStep,
)
    requires
        call_ensures(
            poll_after_draw,
            (attempt, supervisors, shell, now, turn, Err(error)),
            result,
        ),
        authenticates(*old(attempt)),
    ensures
        over_in_failure(
            (*old(attempt))->0,
            *old(supervisors),
            *old(shell),
            *final(attempt),
            *final(supervisors),
            *final(shell),
        ),
        is_shown_in_full(error.message@) ==> gives_reason(*final(shell), error.message@),
        keeps_output_below(*old(shell), *final(shell), error.message@),
        result == PollStep::Done(true),
{
    if is_shown_in_full(error.message@) {
        lemma_given_reason(old(shell).auth@, error.message@);
    }
}

proof fn lemma_given_reason(auth: AuthView, message: Seq<char>)
    requires
        is_shown_in_full(message),
    ensures
        auth.failed(message).popup matches Some(popup) ==> begins_with(
            popup.text,
            message + seq!['\n', '\n'],
        ),
{
    if let Some(popup) = auth.popup {
        lemma_reason(message, popup.text, popup.size.1);
    }
}

/// The ends that taking output may come to, where the program's end is known to be `known`. Output
/// is drawn, all that was taken; the attempt goes on without any having come; it waits for its
/// machine, only where the program succeeded and its output has ended; or it failed, only where
/// the output or the status did, or the program without success.
pub open spec fn is_end_of_output(
    auth: Authentication,
    waited: Result<Option<bool>, AuthError>,
    turn: PollTurn,
    now: u64,
    supervisors: EndpointSupervisors,
    shell: ClientShellState,
    attempt_after: Option<Authentication>,
    supervisors_after: EndpointSupervisors,
    shell_after: ClientShellState,
    result: PollStep,
) -> bool {
    let process = auth.process->0@;
    let known = known_exit(process, waited);
    let process_after = attempt_after->0.process->0@;
    match result {
        PollStep::Draw(drawn, output) => {
            &&& same_attempt(auth, attempt_after)
            &&& attempt_after->0.pending_input@ == auth.pending_input@
            &&& supervisors_after@ == supervisors@
            &&& shell_after == shell
            &&& turn.resized || output@.len() > 0
            &&& process.polled(
                result_view(waited),
                process_after,
                Ok(PollView { output: output@, exit: drawn.exit }),
            )
            &&& process_after.taken() == process.taken() + output@
            &&& process_after.input == process.input
            &&& drawn.size == turn.size && drawn.resized == turn.resized
            &&& drawn.exit is Some ==> drawn.exit == known && process_after.output_done
            &&& process_after.output_done && process_after.failed is None ==> drawn.exit == known
        },
        PollStep::Done(false) => {
            &&& same_attempt(auth, attempt_after)
            &&& attempt_after->0.pending_input@ == auth.pending_input@
            &&& supervisors_after@ == supervisors@
            &&& shell_after == shell
            &&& !turn.resized
            &&& process.polled(
                result_view(waited),
                process_after,
                Ok(PollView { output: Seq::empty(), exit: None }),
            )
            &&& process_after.taken() == process.taken()
            &&& process_after.input == process.input
            &&& process_after.exit == known
            &&& known is Some ==> !process_after.output_done
        },
        PollStep::Done(true) => {
            ||| {
                &&& over_in_failure(
                    auth,
                    supervisors,
                    shell,
                    attempt_after,
                    supervisors_after,
                    shell_after,
                )
                &&& exists|after: ProcessView, polled: Result<PollView, ErrorView>| #[trigger]
                    process.polled(result_view(waited), after, polled) && match polled {
                        Err(error) => is_shown_in_full(error.message) ==> gives_reason(
                            shell_after,
                            error.message,
                        ),
                        Ok(_) => known == Some(false) && after.output_done && gives_reason(
                            shell_after,
                            "SSH authentication did not complete. Close the popup and try again."@,
                        ),
                    }
            }
            ||| {
                &&& waits_for_machine(
                    auth,
                    now,
                    supervisors,
                    shell,
                    attempt_after,
                    supervisors_after,
                    shell_after,
                )
                &&& known == Some(true)
                &&& !turn.resized
                &&& exists|after: ProcessView, polled: Result<PollView, ErrorView>| #[trigger]
                    process.polled(result_view(waited), after, polled) && after.output_done
            }
        },
        _ => false,
    }
}

/// Once the status of the program was asked for, a poll takes output.
#[verifier::rlimit(40)]
pub proof fn law_status_is_followed_by_output(
    attempt: &mut Option<Authentication>,
    supervisors: &mut EndpointSupervisors,
    shell: &mut ClientShellState,
    now: u64,
    turn: PollTurn,
    waited: Result<Option<bool>, AuthError>,
    result: PollStep,
)
    requires
        call_ensures(
            poll_after_status,
            (attempt, supervisors, shell, now, turn, waited),
            result,
        ),
        authenticates(*old(attempt)),
        now + 30_000_000_000 <= u64::MAX,
    ensures
        is_end_of_output(
            (*old(attempt))->0,
            waited,
            turn,
            now,
            *old(supervisors),
            *old(shell),
            *final(attempt),
            *final(supervisors),
            *final(shell),
            result,
        ),
{
    let auth = (*old(attempt))->0;
    let before = situation(*old(attempt), *old(supervisors), *old(shell));
    let after = situation(*final(attempt), *final(supervisors), *final(shell));
    let (next, middle, step) = choose|
        next: Authentication,
        middle: ClientShellState,
        step: StepView,
    | #[trigger]
        output_taken(
            auth,
            *old(shell),
            now,
            turn,
            result_view(waited),
            next,
            middle,
            step,
        ) && before.with(next, middle).concluded(after, now, step, result@);
    lemma_end_of_output(
        auth,
        waited,
        turn,
        now,
        *old(supervisors),
        *old(shell),
        next,
        middle,
        step,
        *final(attempt),
        *final(supervisors),
        *final(shell),
        result,
    );
}

#[verifier::rlimit(40)]
proof fn lemma_end_of_output(
    auth: Authentication,
    waited: Result<Option<bool>, AuthError>,
    turn: PollTurn,
    now: u64,
    supervisors: EndpointSupervisors,
    shell: ClientShellState,
    next: Authentication,
    middle: ClientShellState,
    step: StepView,
    attempt_after: Option<Authentication>,
    supervisors_after: EndpointSupervisors,
    shell_after: ClientShellState,
    result: PollStep,
)
    requires
        auth.process is Some,
        auth.well_formed(),
        now + 30_000_000_000 <= u64::MAX,
        output_taken(auth, shell, now, turn, result_view(waited), next, middle, step),
        situation(Some(next), supervisors, middle).concluded(
            situation(attempt_after, supervisors_after, shell_after),
            now,
            step,
            result@,
        ),
    ensures
        is_end_of_output(
            auth,
            waited,
            turn,
            now,
            supervisors,
            shell,
            attempt_after,
            supervisors_after,
            shell_after,
            result,
        ),
{
    let process = auth.process->0@;
    let (polled_process, polled) = choose|
        polled_process: SshAuthProcess,
        polled: Result<PollView, ErrorView>,
    |
        {
            let between = Authentication { process: Some(polled_process), ..auth };
            &&& #[trigger] process.polled(result_view(waited), polled_process@, polled)
            &&& match polled {
                Err(error) => {
                    &&& next == between
                    &&& middle == shell
                    &&& step == StepView::Finished(Err(error))
                },
                Ok(poll) => if turn.resized || poll.output.len() > 0 {
                    &&& next == between
                    &&& middle == shell
                    &&& step == StepView::Draw(PollTurn { exit: poll.exit, ..turn }, poll.output)
                } else {
                    &&& step is Finished
                    &&& settled(
                        between,
                        shell,
                        now,
                        false,
                        poll.exit,
                        next,
                        middle,
                        step->Finished_0,
                    )
                },
            }
        };
    law_no_output_dropped(process, result_view(waited), polled_process@, polled);
    lemma_exit_of_poll(process, waited, polled_process@, polled);
    if polled is Ok && polled->Ok_0.output.len() == 0 {
        assert(process.taken() + polled->Ok_0.output =~= process.taken());
        assert(polled->Ok_0.output =~= Seq::empty());
    }
    if let Err(error) = polled {
        if is_shown_in_full(error.message) {
            lemma_given_reason(shell.auth@, error.message);
        }
    }
    reveal_strlit("SSH authentication did not complete. Close the popup and try again.");
    lemma_given_reason(
        shell.auth@,
        "SSH authentication did not complete. Close the popup and try again."@,
    );
}

/// A poll tells the end exactly where it is known and all output was taken.
proof fn lemma_exit_of_poll(
    process: ProcessView,
    waited: Result<Option<bool>, AuthError>,
    after: ProcessView,
    result: Result<PollView, ErrorView>,
)
    requires
        process.polled(result_view(waited), after, result),
    ensures
        result matches Ok(poll) ==> after.exit == known_exit(process, waited) && (poll.exit is Some
            ==> poll.exit == after.exit && after.output_done),
        result matches Ok(poll) ==> (after.exit is Some && after.output_done && after.failed is None
            ==> poll.exit == after.exit),
        after.input == process.input,
        result matches Ok(poll) ==> (poll.output.len() == 0 ==> after.failed is None),
{
}

/// What of `pending` is written at once: its first 4096 bytes, or all of it.
pub open spec fn first_piece(pending: Seq<u8>) -> Seq<u8> {
    if pending.len() <= 4096 {
        pending
    } else {
        pending.take(4096)
    }
}

/// The pieces are full ones of 4096 bytes, but for the last one where nothing waits behind it.
pub open spec fn are_full_pieces(pieces: Seq<Seq<u8>>, rest: Seq<u8>) -> bool {
    forall|i: int|
        0 <= i < pieces.len() ==> (#[trigger] pieces[i]).len() == 4096 || i == pieces.len() - 1
            && rest.len() == 0 && 1 <= pieces[i].len() < 4096
}

/// Each of the pieces was offered once, in order, and went into the channel; what waits behind them
/// was offered with its first piece then, if the channel refused.
pub open spec fn were_offered(
    before: Seq<(Seq<u8>, SendOutcome)>,
    after: Seq<(Seq<u8>, SendOutcome)>,
    pieces: Seq<Seq<u8>>,
    rest: Seq<u8>,
    refusal: Option<SendOutcome>,
) -> bool {
    &&& after.len() == before.len() + pieces.len() + if refusal is Some {
        1int
    } else {
        0
    }
    &&& after.take(before.len() as int) == before
    &&& forall|i: int|
        #![trigger pieces[i]]
        0 <= i < pieces.len() ==> after[before.len() + i] == (pieces[i], SendOutcome::Sent)
    &&& refusal matches Some(outcome) ==> after.last() == (first_piece(rest), outcome)
}

/// What waited to be written before went into the channel in pieces, but for what still waits behind
/// it: no byte is lost, repeated or out of order. Nothing else of the process changed.
pub open spec fn has_offered_input(
    before: Authentication,
    after: Authentication,
    refusal: Option<SendOutcome>,
) -> bool {
    &&& exists|pieces: Seq<Seq<u8>>|
        {
            &&& #[trigger] pieces.flatten() + after.pending_input@ == before.pending_input@
            &&& are_full_pieces(pieces, after.pending_input@)
            &&& match before.process->0@.input {
                Some(offers) => after.process->0@.input is Some && were_offered(
                    offers,
                    after.process->0@.input->0,
                    pieces,
                    after.pending_input@,
                    refusal,
                ),
                None => pieces.len() == 0 && after.process->0@.input is None && refusal is None,
            }
        }
    &&& after.process->0@.output == before.process->0@.output
    &&& after.process->0@.exit == before.process->0@.exit
    &&& after.process->0@.output_done == before.process->0@.output_done
    &&& after.process->0@.failed == before.process->0@.failed
}

/// The input was written, all of it, or as much as the channel took before it said that it is full.
pub open spec fn has_written_input(before: Authentication, after: Authentication) -> bool {
    &&& after.pending_input@.len() == 0 ==> has_offered_input(before, after, None)
    &&& after.pending_input@.len() > 0 ==> has_offered_input(
        before,
        after,
        Some(SendOutcome::Full),
    )
    &&& before.pending_input@.len() == 0 ==> after.process->0@ == before.process->0@
}

/// The input that waits is written in full pieces of 4096 bytes, each offered once and in order,
/// until none waits or the channel refuses one. A full channel is no error; one that nobody receives
/// from is a broken pipe, and so is a closed input where something waits.
pub proof fn law_input_is_written(auth: &mut Authentication, result: Result<(), AuthError>)
    requires
        call_ensures(Authentication::flush_input, (auth,), result),
        authenticates(Some(*old(auth))),
    ensures
        same_attempt(*old(auth), Some(*final(auth))),
        match result {
            Ok(_) => has_written_input(*old(auth), *final(auth)),
            Err(error) => {
                &&& error.kind == ErrorKind::BrokenPipe && error.message@ == "broken pipe"@
                &&& final(auth).pending_input@.len() > 0
                &&& if old(auth).process->0.input is None {
                    &&& final(auth).process->0@ == old(auth).process->0@
                    &&& final(auth).pending_input@ == old(auth).pending_input@
                } else {
                    has_offered_input(*old(auth), *final(auth), Some(SendOutcome::Disconnected))
                }
            },
        },
{
    lemma_offered(*old(auth), *final(auth), result_view(result));
    lemma_flush_frame(*old(auth), *final(auth), result_view(result));
}

/// The pieces in which input is cut are full ones but for the last, and what is left behind the
/// first of them is cut into the others.
#[verifier::rlimit(40)]
proof fn lemma_cut_pieces(pending: Seq<u8>, n: int, rest: Seq<u8>)
    requires
        0 <= n <= cut(pending).len(),
        cut(pending).take(n).flatten() + rest == pending,
    ensures
        forall|i: int|
            0 <= i < cut(pending).len() ==> (#[trigger] cut(pending)[i]).len() == 4096 || i
                == cut(pending).len() - 1 && 1 <= cut(pending)[i].len() < 4096,
        cut(rest) == cut(pending).skip(n),
    decreases pending.len(),
{
    let all = cut(pending);
    if pending.len() == 0 {
        assert(all.len() == 0);
        assert(rest =~= pending);
        assert(all.skip(0) =~= all);
    } else {
        let first = next_chunk(pending);
        let behind = pending.skip(first.len() as int);
        assert(all.drop_first() =~= cut(behind));
        assert(first + behind =~= pending);
        if n == 0 {
            assert(all.take(0) =~= Seq::<Seq<u8>>::empty());
            assert(all.take(0).flatten() =~= Seq::<u8>::empty());
            assert(rest =~= pending);
            assert(all.skip(0) =~= all);
            assert(cut(behind).take(0) =~= Seq::<Seq<u8>>::empty());
            assert(cut(behind).take(0).flatten() + behind =~= behind);
            lemma_cut_pieces(behind, 0, behind);
        } else {
            let taken = all.take(n);
            assert(taken.drop_first() =~= cut(behind).take(n - 1));
            assert(taken.first() == first);
            assert(taken.flatten() =~= first + cut(behind).take(n - 1).flatten());
            assert(cut(behind).take(n - 1).flatten() + rest =~= behind) by {
                let joined = first + (cut(behind).take(n - 1).flatten() + rest);
                assert(joined =~= pending);
                assert(joined.skip(first.len() as int) =~= cut(behind).take(n - 1).flatten()
                    + rest);
            }
            lemma_cut_pieces(behind, n - 1, rest);
            assert(cut(behind).skip(n - 1) =~= all.skip(n));
        }
        assert forall|i: int| 0 <= i < all.len() implies (#[trigger] all[i]).len() == 4096 || i
            == all.len() - 1 && 1 <= all[i].len() < 4096 by {
            if i > 0 {
                assert(all[i] == cut(behind)[i - 1]);
            } else if behind.len() > 0 {
                assert(first.len() == 4096);
            }
        }
    }
}

#[verifier::rlimit(40)]
proof fn lemma_offered(
    before: Authentication,
    after: Authentication,
    result: Result<(), ErrorView>,
)
    requires
        flushed(before, after, result),
        before.well_formed(),
    ensures
        result is Ok ==> has_written_input(before, after),
        result is Err && before.process->0@.input is Some ==> has_offered_input(
            before,
            after,
            Some(SendOutcome::Disconnected),
        ),
        result is Err && before.process->0@.input is None ==> after.process->0@
            == before.process->0@ && after.pending_input@ == before.pending_input@,
        result matches Err(error) ==> error.kind == ErrorKind::BrokenPipe && error.message
            == "broken pipe"@,
{
    lemma_flush_frame(before, after, result);
    let process = before.process->0@;
    let now = after.process->0@;
    let pending = before.pending_input@;
    let rest = after.pending_input@;
    let (n, refusal) = choose|n: int, refusal: SendOutcome| #[trigger]
        flush_run(process, pending, n, refusal, now, rest, result);
    let all = cut(pending);
    let pieces = all.take(n);
    lemma_cut_pieces(pending, n, rest);
    lemma_cut_joined(pending);
    assert(pieces.flatten() + rest == pending);
    if n == all.len() {
        assert(pieces =~= all);
        assert(rest.len() == 0);
        assert(are_full_pieces(pieces, rest));
        if process.input is Some {
            let offers = process.input->0;
            assert(now.input->0 == offers + all_sent(pieces));
            assert(now.input->0.take(offers.len() as int) =~= offers);
            assert(were_offered(offers, now.input->0, pieces, rest, None));
        }
        assert(has_offered_input(before, after, None));
    } else if process.input is Some {
        let offers = process.input->0;
        assert(all.skip(n)[0] == all[n]);
        assert(cut(rest)[0] == all[n]);
        assert(rest.len() > 0);
        assert(all[n] == first_piece(rest));
        assert(are_full_pieces(pieces, rest)) by {
            assert forall|i: int| 0 <= i < pieces.len() implies (#[trigger] pieces[i]).len()
                == 4096 by {
                assert(pieces[i] == all[i]);
            }
        }
        assert(now.input->0 == (offers + all_sent(pieces)).push((all[n], refusal)));
        assert(now.input->0.take(offers.len() as int) =~= offers);
        assert(were_offered(offers, now.input->0, pieces, rest, Some(refusal)));
        assert(has_offered_input(before, after, Some(refusal)));
    } else {
        assert(pieces =~= Seq::<Seq<u8>>::empty());
        assert(pieces.flatten() =~= Seq::<u8>::empty());
        assert(rest =~= pending);
    }
}

/// A poll whose terminal has the right size writes the input. Then it asks for the program's
/// status, unless that is known already: then it takes output. If the input is closed while some
/// waits, the attempt fails.
pub open spec fn goes_on_with_input(
    auth: Authentication,
    turn: PollTurn,
    now: u64,
    supervisors: EndpointSupervisors,
    shell: ClientShellState,
    attempt_after: Option<Authentication>,
    supervisors_after: EndpointSupervisors,
    shell_after: ClientShellState,
    result: PollStep,
) -> bool {
    ||| {
        &&& auth.pending_input@.len() > 0
        &&& over_in_failure(
            auth,
            supervisors,
            shell,
            attempt_after,
            supervisors_after,
            shell_after,
        )
        &&& gives_reason(shell_after, "broken pipe"@)
        &&& auth.process->0@.input is None || exists|tried: Authentication| #[trigger]
            has_offered_input(auth, tried, Some(SendOutcome::Disconnected))
        &&& result == PollStep::Done(true)
    }
    ||| {
        &&& auth.process->0@.exit is None
        &&& result == PollStep::Ask(turn)
        &&& same_attempt(auth, attempt_after)
        &&& has_written_input(auth, attempt_after->0)
        &&& supervisors_after@ == supervisors@
        &&& shell_after == shell
    }
    ||| {
        &&& auth.process->0@.exit is Some
        &&& exists|written: Authentication|
            {
                &&& #[trigger] has_written_input(auth, written)
                &&& same_attempt(auth, Some(written))
                &&& is_end_of_output(
                    written,
                    Ok(None),
                    turn,
                    now,
                    supervisors,
                    shell,
                    attempt_after,
                    supervisors_after,
                    shell_after,
                    result,
                )
            }
    }
}

#[verifier::rlimit(40)]
proof fn lemma_goes_on(
    auth: Authentication,
    turn: PollTurn,
    now: u64,
    supervisors: EndpointSupervisors,
    shell: ClientShellState,
    next: Authentication,
    middle: ClientShellState,
    step: StepView,
    attempt_after: Option<Authentication>,
    supervisors_after: EndpointSupervisors,
    shell_after: ClientShellState,
    result: PollStep,
)
    requires
        auth.process is Some,
        auth.well_formed(),
        now + 30_000_000_000 <= u64::MAX,
        pumped(auth, shell, now, turn, next, middle, step),
        situation(Some(next), supervisors, middle).concluded(
            situation(attempt_after, supervisors_after, shell_after),
            now,
            step,
            result@,
        ),
    ensures
        goes_on_with_input(
            auth,
            turn,
            now,
            supervisors,
            shell,
            attempt_after,
            supervisors_after,
            shell_after,
            result,
        ),
{
    let (written, outcome) = choose|written: Authentication, outcome: Result<(), ErrorView>|
        {
            &&& #[trigger] flushed(auth, written, outcome)
            &&& match outcome {
                Err(error) => {
                    &&& next == written
                    &&& middle == shell
                    &&& step == StepView::Finished(Err(error))
                },
                Ok(_) => if written.process->0.exit is None {
                    &&& next == written
                    &&& middle == shell
                    &&& step == StepView::Ask(turn)
                } else {
                    output_taken(written, shell, now, turn, Ok(None), next, middle, step)
                },
            }
        };
    lemma_offered(auth, written, outcome);
    lemma_flush_frame(auth, written, outcome);
    if outcome is Err {
        reveal_strlit("broken pipe");
        lemma_given_reason(shell.auth@, "broken pipe"@);
    } else {
        assert(has_written_input(auth, written));
        if written.process->0.exit is Some {
            lemma_end_of_output(
                written,
                Ok(None),
                turn,
                now,
                supervisors,
                shell,
                next,
                middle,
                step,
                attempt_after,
                supervisors_after,
                shell_after,
                result,
            );
        }
    }
}

proof fn lemma_flush_frame(
    before: Authentication,
    after: Authentication,
    result: Result<(), ErrorView>,
)
    requires
        flushed(before, after, result),
        before.well_formed(),
    ensures
        after.process->0@ == (ProcessView {
            input: after.process->0@.input,
            ..before.process->0@
        }),
        after.well_formed(),
        before.pending_input@.len() == 0 ==> result is Ok && after.process->0@
            == before.process->0@,
        result is Err ==> after.pending_input@.len() > 0,
{
    let process = before.process->0@;
    let (n, refusal) = choose|n: int, refusal: SendOutcome| #[trigger]
        flush_run(
            process,
            before.pending_input@,
            n,
            refusal,
            after.process->0@,
            after.pending_input@,
            result,
        );
    let all = cut(before.pending_input@);
    if before.pending_input@.len() == 0 {
        assert(all.len() == 0);
        if process.input is Some {
            assert(process.input->0 + all_sent(all) =~= process.input->0);
        }
    }
    if n < all.len() {
        if after.pending_input@.len() == 0 {
            lemma_flatten_grows(all, n);
            lemma_cut_joined(before.pending_input@);
        }
    }
}

/// Pieces that are left out are missing.
proof fn lemma_flatten_grows(pieces: Seq<Seq<u8>>, n: int)
    requires
        0 <= n < pieces.len(),
    ensures
        pieces.take(n).flatten().len() + pieces[n].len() <= pieces.flatten().len(),
{
    vstd::seq_lib::lemma_flatten_concat(pieces.take(n), pieces.skip(n));
    assert(pieces.take(n) + pieces.skip(n) =~= pieces);
    assert(pieces.skip(n).first() == pieces[n]);
}

proof fn lemma_cut_joined(pending: Seq<u8>)
    ensures
        cut(pending).flatten() == pending,
        forall|i: int| 0 <= i < cut(pending).len() ==> (#[trigger] cut(pending)[i]).len() > 0,
    decreases pending.len(),
{
    if pending.len() > 0 {
        let rest = pending.skip(next_chunk(pending).len() as int);
        lemma_cut_joined(rest);
        assert(cut(pending).drop_first() =~= cut(rest));
        assert(next_chunk(pending) + rest =~= pending);
        assert forall|i: int| 0 <= i < cut(pending).len() implies (#[trigger] cut(
            pending,
        )[i]).len() > 0 by {
            if i > 0 {
                assert(cut(pending)[i] == cut(rest)[i - 1]);
            }
        }
    } else {
        assert(cut(pending).flatten() =~= pending);
    }
}

/// Once the PTY and the terminal have the popup's size, the attempt has it too, and the poll goes
/// on with the input.
pub proof fn law_resize_goes_on(
    attempt: &mut Option<Authentication>,
    supervisors: &mut EndpointSupervisors,
    shell: &mut ClientShellState,
    now: u64,
    turn: PollTurn,
    result: PollStep,
)
    requires
        call_ensures(
            poll_after_resize,
            (attempt, supervisors, shell, now, turn, Ok(())),
            result,
        ),
        authenticates(*old(attempt)),
        turn.size.0 >= 1 && turn.size.1 >= 1,
        now + 30_000_000_000 <= u64::MAX,
    ensures
        goes_on_with_input(
            (Authentication { size: turn.size, ..(*old(attempt))->0 }),
            turn,
            now,
            *old(supervisors),
            *old(shell),
            *final(attempt),
            *final(supervisors),
            *final(shell),
            result,
        ),
{
    let auth = (*old(attempt))->0;
    let before = situation(*old(attempt), *old(supervisors), *old(shell));
    let after = situation(*final(attempt), *final(supervisors), *final(shell));
    let (next, middle, step) = choose|
        next: Authentication,
        middle: ClientShellState,
        step: StepView,
    | #[trigger]
        poll_resized(
            auth,
            *old(shell),
            now,
            turn,
            Ok::<(), ErrorView>(()),
            next,
            middle,
            step,
        ) && before.with(next, middle).concluded(after, now, step, result@);
    lemma_goes_on(
        Authentication { size: turn.size, ..auth },
        turn,
        now,
        *old(supervisors),
        *old(shell),
        next,
        middle,
        step,
        *final(attempt),
        *final(supervisors),
        *final(shell),
        result,
    );
}

/// A PTY or a terminal that cannot be resized ends the attempt.
pub proof fn law_failed_resize_fails_attempt(
    attempt: &mut Option<Authentication>,
    supervisors: &mut EndpointSupervisors,
    shell: &mut ClientShellState,
    now: u64,
    turn: PollTurn,
    error: AuthError,
    result: PollStep,
)
    requires
        call_ensures(
            poll_after_resize,
            (attempt, supervisors, shell, now, turn, Err(error)),
            result,
        ),
        authenticates(*old(attempt)),
    ensures
        over_in_failure(
            (*old(attempt))->0,
            *old(supervisors),
            *old(shell),
            *final(attempt),
            *final(supervisors),
            *final(shell),
        ),
        is_shown_in_full(error.message@) ==> gives_reason(*final(shell), error.message@),
        keeps_output_below(*old(shell), *final(shell), error.message@),
        result == PollStep::Done(true),
{
    if is_shown_in_full(error.message@) {
        lemma_given_reason(old(shell).auth@, error.message@);
    }
}

/// Where there is no attempt, a poll does nothing.
pub proof fn law_no_attempt_nothing_polled(
    attempt: &mut Option<Authentication>,
    profiles: &[SavedSshEndpoint],
    supervisors: &mut EndpointSupervisors,
    shell: &mut ClientShellState,
    now: u64,
    result: PollStep,
)
    requires
        call_ensures(poll, (attempt, profiles, supervisors, shell, now), result),
        *old(attempt) is None,
    ensures
        *final(attempt) is None,
        final(supervisors)@ == old(supervisors)@,
        *final(shell) == *old(shell),
        result == PollStep::Done(false),
{
}

/// An attempt is dropped as obsolete where none of the profiles leads where it leads; no machine is
/// touched then, and the popup says why.
pub proof fn law_obsolete_attempt_is_dropped(
    attempt: &mut Option<Authentication>,
    profiles: &[SavedSshEndpoint],
    supervisors: &mut EndpointSupervisors,
    shell: &mut ClientShellState,
    now: u64,
    result: PollStep,
)
    requires
        call_ensures(poll, (attempt, profiles, supervisors, shell, now), result),
        *old(attempt) is Some,
        forall|i: int|
            0 <= i < profiles@.len() ==> !leads_to_same(
                (*old(attempt))->0,
                #[trigger] profiles@[i],
            ),
    ensures
        *final(attempt) is None,
        final(supervisors)@ == old(supervisors)@,
        only_popup_differs(*old(shell), *final(shell)),
        tells_failure(*final(shell)),
        gives_reason(
            *final(shell),
            "This machine changed or was removed. Close the popup and select it again."@,
        ),
        result == PollStep::Done(true),
{
    lemma_current((*old(attempt))->0, profiles@);
    reveal_strlit("This machine changed or was removed. Close the popup and select it again.");
    lemma_given_reason(
        old(shell).auth@,
        "This machine changed or was removed. Close the popup and select it again."@,
    );
}

proof fn lemma_current(auth: Authentication, profiles: Seq<SavedSshEndpoint>)
    ensures
        auth.is_current(profiles) == exists|i: int|
            0 <= i < profiles.len() && leads_to_same(auth, #[trigger] profiles[i]),
{
    if auth.is_current(profiles) {
        let i = choose|i: int|
            0 <= i < profiles.len() && same_target(auth.profile, #[trigger] profiles[i]);
        assert(leads_to_same(auth, profiles[i]));
    }
    if exists|i: int| 0 <= i < profiles.len() && leads_to_same(auth, #[trigger] profiles[i]) {
        let i = choose|i: int|
            0 <= i < profiles.len() && leads_to_same(auth, #[trigger] profiles[i]);
        assert(same_target(auth.profile, profiles[i]));
    }
}

/// An attempt whose popup is gone, or is open for another machine, is over, though one of the
/// profiles, at whatever position, still leads where it leads. If it was still to authenticate, its
/// machine is not tried by itself.
pub proof fn law_attempt_without_popup_is_over(
    attempt: &mut Option<Authentication>,
    profiles: &[SavedSshEndpoint],
    supervisors: &mut EndpointSupervisors,
    shell: &mut ClientShellState,
    now: u64,
    result: PollStep,
    i: int,
)
    requires
        call_ensures(poll, (attempt, profiles, supervisors, shell, now), result),
        *old(attempt) is Some,
        0 <= i < profiles@.len(),
        leads_to_same((*old(attempt))->0, profiles@[i]),
        !shows(*old(shell), machine_of((*old(attempt))->0)),
    ensures
        *final(attempt) is None,
        *final(shell) == *old(shell),
        (*old(attempt))->0.verifying_until is Some ==> final(supervisors)@ == old(supervisors)@,
        (*old(attempt))->0.verifying_until is None ==> only_schedule_of(
            old(supervisors)@,
            final(supervisors)@,
            machine_of((*old(attempt))->0),
            None,
        ),
        result == PollStep::Done(true),
{
    lemma_current((*old(attempt))->0, profiles@);
}

/// An attempt that waits for its machine is left alone until its time is up, as long as one of the
/// profiles, at whatever position, still leads there. When the time is up the attempt is over and
/// the popup says so, but no machine is touched.
pub proof fn law_waiting_attempt_waits(
    attempt: &mut Option<Authentication>,
    profiles: &[SavedSshEndpoint],
    supervisors: &mut EndpointSupervisors,
    shell: &mut ClientShellState,
    now: u64,
    result: PollStep,
    i: int,
)
    requires
        call_ensures(poll, (attempt, profiles, supervisors, shell, now), result),
        *old(attempt) is Some,
        (*old(attempt))->0.well_formed(),
        (*old(attempt))->0.verifying_until is Some,
        0 <= i < profiles@.len(),
        leads_to_same((*old(attempt))->0, profiles@[i]),
        shows(*old(shell), machine_of((*old(attempt))->0)),
    ensures
        final(supervisors)@ == old(supervisors)@,
        now < (*old(attempt))->0.verifying_until->0 ==> {
            &&& *final(attempt) == *old(attempt)
            &&& *final(shell) == *old(shell)
            &&& result == PollStep::Done(false)
        },
        now >= (*old(attempt))->0.verifying_until->0 ==> {
            &&& *final(attempt) is None
            &&& only_popup_differs(*old(shell), *final(shell))
            &&& tells_failure(*final(shell))
            &&& gives_reason(
                *final(shell),
                "SSH authenticated, but the machine did not reconnect. Close and try again."@,
            )
            &&& result == PollStep::Done(true)
        },
{
    lemma_current((*old(attempt))->0, profiles@);
    reveal_strlit("SSH authenticated, but the machine did not reconnect. Close and try again.");
    lemma_given_reason(
        old(shell).auth@,
        "SSH authenticated, but the machine did not reconnect. Close and try again."@,
    );
}

/// An attempt that authenticates goes on, as long as one of the profiles, at whatever position,
/// leads where it leads and its popup is open. If the popup has another size than the terminal, the
/// host is asked to resize it, and nothing else happens.
#[verifier::rlimit(40)]
pub proof fn law_running_attempt_goes_on(
    attempt: &mut Option<Authentication>,
    profiles: &[SavedSshEndpoint],
    supervisors: &mut EndpointSupervisors,
    shell: &mut ClientShellState,
    now: u64,
    result: PollStep,
    i: int,
)
    requires
        call_ensures(poll, (attempt, profiles, supervisors, shell, now), result),
        authenticates(*old(attempt)),
        old(shell).auth.well_formed(),
        now + 30_000_000_000 <= u64::MAX,
        0 <= i < profiles@.len(),
        leads_to_same((*old(attempt))->0, profiles@[i]),
        shows(*old(shell), machine_of((*old(attempt))->0)),
    ensures
        ({
            let auth = (*old(attempt))->0;
            let wanted = old(shell).auth.popup->0.size;
            if wanted != auth.size {
                &&& *final(attempt) == *old(attempt)
                &&& final(supervisors)@ == old(supervisors)@
                &&& *final(shell) == *old(shell)
                &&& result == PollStep::Resize(
                    PollTurn { size: wanted, resized: true, exit: None },
                )
            } else {
                goes_on_with_input(
                    auth,
                    PollTurn { size: auth.size, resized: false, exit: None },
                    now,
                    *old(supervisors),
                    *old(shell),
                    *final(attempt),
                    *final(supervisors),
                    *final(shell),
                    result,
                )
            }
        }),
{
    let auth = (*old(attempt))->0;
    lemma_current(auth, profiles@);
    let before = situation(*old(attempt), *old(supervisors), *old(shell));
    let after = situation(*final(attempt), *final(supervisors), *final(shell));
    let (next, middle, step) = choose|
        next: Authentication,
        middle: ClientShellState,
        step: StepView,
    | #[trigger]
        poll_begun(auth, *old(shell), now, next, middle, step) && before.with(
            next,
            middle,
        ).concluded(after, now, step, result@);
    let wanted = old(shell).auth.popup->0.size;
    if wanted == auth.size {
        lemma_goes_on(
            auth,
            PollTurn { size: auth.size, resized: false, exit: None },
            now,
            *old(supervisors),
            *old(shell),
            next,
            middle,
            step,
            *final(attempt),
            *final(supervisors),
            *final(shell),
            result,
        );
    }
}

/// Asking to authenticate gives an attempt to start exactly where none is under way, the popup is
/// open for the machine, one of the profiles is an enabled one of that machine, and the machine is
/// supervised. The attempt is for such a profile, of the size that was asked for; the machine is no
/// longer tried by itself, and nothing else changes.
pub proof fn law_start_is_for_the_machine_asked_for(
    attempt: &mut Option<Authentication>,
    profiles: &[SavedSshEndpoint],
    supervisors: &mut EndpointSupervisors,
    shell: &mut ClientShellState,
    endpoint_id: ClientEndpointId,
    cols: u16,
    rows: u16,
    request: Option<StartRequest>,
)
    requires
        call_ensures(
            command,
            (
                SshAuthCommand::Start { endpoint_id, cols, rows },
                attempt,
                profiles,
                supervisors,
                shell,
            ),
            request,
        ),
    ensures
        request is Some == (*old(attempt) is None && shows(*old(shell), endpoint_id@)
            && old(supervisors)@.contains_key(endpoint_id@) && exists|i: int|
            0 <= i < profiles@.len() && is_enabled_profile_of(
                #[trigger] profiles@[i],
                endpoint_id@,
            )),
        request matches Some(start) ==> {
            &&& is_enabled_profile_of(start.profile, endpoint_id@)
            &&& exists|i: int|
                0 <= i < profiles@.len() && start.profile == #[trigger] profiles@[i] && forall|
                    j: int,
                | 0 <= j < i ==> !is_enabled_profile_of(#[trigger] profiles@[j], endpoint_id@)
            &&& start.cols == cols
            &&& start.rows == rows
            &&& only_schedule_of(
                old(supervisors)@,
                final(supervisors)@,
                endpoint_id@,
                None,
            )
            &&& *final(shell) == *old(shell)
        },
        *final(attempt) == *old(attempt),
{
    lemma_first_enabled(profiles@, endpoint_id@);
}

/// A profile is an enabled one of the machine `id`.
pub open spec fn is_enabled_profile_of(profile: SavedSshEndpoint, id: EndpointIdView) -> bool {
    profile.enabled && id == EndpointIdView::Ssh(profile.id@)
}

proof fn lemma_first_enabled(profiles: Seq<SavedSshEndpoint>, id: EndpointIdView)
    ensures
        match first_enabled(profiles, id) {
            Some(profile) => exists|i: int|
                0 <= i < profiles.len() && profile == #[trigger] profiles[i]
                    && is_enabled_profile_of(profiles[i], id) && forall|j: int|
                    0 <= j < i ==> !is_enabled_profile_of(#[trigger] profiles[j], id),
            None => forall|i: int|
                0 <= i < profiles.len() ==> !is_enabled_profile_of(#[trigger] profiles[i], id),
        },
    decreases profiles.len(),
{
    if profiles.len() > 0 {
        let rest = profiles.drop_first();
        lemma_first_enabled(rest, id);
        if is_enabled_profile_of(profiles[0], id) {
            assert(first_enabled(profiles, id) == Some(profiles[0]));
        } else if let Some(profile) = first_enabled(rest, id) {
            let i = choose|i: int|
                0 <= i < rest.len() && profile == #[trigger] rest[i] && is_enabled_profile_of(
                    rest[i],
                    id,
                ) && forall|j: int|
                    0 <= j < i ==> !is_enabled_profile_of(#[trigger] rest[j], id);
            assert(profiles[i + 1] == rest[i]);
            assert forall|j: int| 0 <= j < i + 1 implies !is_enabled_profile_of(
                #[trigger] profiles[j],
                id,
            ) by {
                if j > 0 {
                    assert(profiles[j] == rest[j - 1]);
                }
            }
        } else {
            assert forall|i: int| 0 <= i < profiles.len() implies !is_enabled_profile_of(
                #[trigger] profiles[i],
                id,
            ) by {
                if i > 0 {
                    assert(profiles[i] == rest[i - 1]);
                }
            }
        }
    }
}

/// Asking to authenticate without giving an attempt to start changes nothing, but for the popup
/// where no enabled profile is of the machine that it is open for: then it says so.
pub proof fn law_start_that_cannot_be(
    attempt: &mut Option<Authentication>,
    profiles: &[SavedSshEndpoint],
    supervisors: &mut EndpointSupervisors,
    shell: &mut ClientShellState,
    endpoint_id: ClientEndpointId,
    cols: u16,
    rows: u16,
    request: Option<StartRequest>,
)
    requires
        call_ensures(
            command,
            (
                SshAuthCommand::Start { endpoint_id, cols, rows },
                attempt,
                profiles,
                supervisors,
                shell,
            ),
            request,
        ),
        request is None,
    ensures
        *final(attempt) == *old(attempt),
        final(supervisors)@ == old(supervisors)@,
        if *old(attempt) is None && shows(*old(shell), endpoint_id@) && forall|i: int|
            0 <= i < profiles@.len() ==> !is_enabled_profile_of(
                #[trigger] profiles@[i],
                endpoint_id@,
            ) {
            &&& only_popup_differs(*old(shell), *final(shell))
            &&& tells_failure(*final(shell))
            &&& gives_reason(*final(shell), "This machine was removed or disabled."@)
        } else {
            *final(shell) == *old(shell)
        },
{
    lemma_first_enabled(profiles@, endpoint_id@);
    reveal_strlit("This machine was removed or disabled.");
    lemma_given_reason(old(shell).auth@, "This machine was removed or disabled."@);
}

/// Input waits behind what waits already, as long as all of it is at most 65536 bytes; more ends the
/// attempt. Where no program authenticates, it is dropped. It starts nothing.
pub proof fn law_input_waits_its_turn(
    attempt: &mut Option<Authentication>,
    profiles: &[SavedSshEndpoint],
    supervisors: &mut EndpointSupervisors,
    shell: &mut ClientShellState,
    bytes: Vec<u8>,
    request: Option<StartRequest>,
)
    requires
        call_ensures(
            command,
            (SshAuthCommand::Input(bytes), attempt, profiles, supervisors, shell),
            request,
        ),
    ensures
        request is None,
        match *old(attempt) {
            Some(auth) if auth.process is Some => if auth.pending_input@.len() + bytes@.len()
                <= 65536 {
                &&& *final(attempt) matches Some(now)
                &&& now.pending_input@ == auth.pending_input@ + bytes@
                &&& now.profile == auth.profile && now.process == auth.process
                &&& now.size == auth.size && now.verifying_until == auth.verifying_until
                &&& final(supervisors)@ == old(supervisors)@
                &&& *final(shell) == *old(shell)
            } else {
                &&& over_in_failure(
                    auth,
                    *old(supervisors),
                    *old(shell),
                    *final(attempt),
                    *final(supervisors),
                    *final(shell),
                )
                &&& gives_reason(
                    *final(shell),
                    "Authentication input is too large. Close and try again."@,
                )
            },
            _ => {
                &&& *final(attempt) == *old(attempt)
                &&& final(supervisors)@ == old(supervisors)@
                &&& *final(shell) == *old(shell)
            },
        },
{
    reveal_strlit("Authentication input is too large. Close and try again.");
    lemma_given_reason(
        old(shell).auth@,
        "Authentication input is too large. Close and try again."@,
    );
}

/// Giving up ends the attempt, with all input that waited, and closes the popup. The machine wants
/// attention and is not tried by itself exactly where a program was still to authenticate to it and
/// one of the profiles, at whatever position, still leads there; else no machine is touched.
pub proof fn law_giving_up(
    attempt: &mut Option<Authentication>,
    profiles: &[SavedSshEndpoint],
    supervisors: &mut EndpointSupervisors,
    shell: &mut ClientShellState,
    request: Option<StartRequest>,
)
    requires
        call_ensures(
            command,
            (SshAuthCommand::Cancel, attempt, profiles, supervisors, shell),
            request,
        ),
    ensures
        request is None,
        *final(attempt) is None,
        final(shell).auth.popup is None,
        final(shell).auth@.required == old(shell).auth@.required,
        final(shell).auth@.hover == old(shell).auth@.hover,
        *final(shell) == (ClientShellState {
            endpoints: final(shell).endpoints,
            auth: final(shell).auth,
            ..*old(shell)
        }),
        match *old(attempt) {
            Some(auth) if auth.verifying_until is None && exists|i: int|
                0 <= i < profiles@.len() && leads_to_same(auth, #[trigger] profiles@[i]) => {
                &&& only_schedule_of(
                    old(supervisors)@,
                    final(supervisors)@,
                    machine_of(auth),
                    None,
                )
                &&& only_status_of(
                    old(shell).endpoints@,
                    final(shell).endpoints@,
                    machine_of(auth),
                    ClientEndpointStatus::Attention,
                )
            },
            _ => {
                &&& final(supervisors)@ == old(supervisors)@
                &&& final(shell).endpoints == old(shell).endpoints
            },
        },
{
    if let Some(auth) = *old(attempt) {
        lemma_current(auth, profiles@);
    }
}

/// An attempt begins with the process that was started, for the profile and of the size that was
/// asked for, a cell at least, with nothing to be written. One that could not be started leaves none,
/// and the popup gives the reason.
pub proof fn law_start_begins_the_attempt(
    attempt: &mut Option<Authentication>,
    shell: &mut ClientShellState,
    request: StartRequest,
    outcome: Result<SshAuthProcess, AuthError>,
)
    requires
        call_ensures(started, (attempt, shell, request, outcome), ()),
    ensures
        match outcome {
            Ok(process) => {
                &&& *final(attempt) matches Some(auth)
                &&& auth.profile == request.profile
                &&& auth.process == Some(process)
                &&& auth.pending_input@.len() == 0
                &&& auth.verifying_until is None
                &&& auth.size.0 == if request.cols > 0 { request.cols } else { 1 }
                &&& auth.size.1 == if request.rows > 0 { request.rows } else { 1 }
                &&& *final(shell) == *old(shell)
            },
            Err(error) => {
                &&& *final(attempt) is None
                &&& only_popup_differs(*old(shell), *final(shell))
                &&& tells_failure(*final(shell))
                &&& is_shown_in_full(error.message@) ==> gives_reason(
                    *final(shell),
                    error.message@,
                )
                &&& keeps_output_below(*old(shell), *final(shell), error.message@)
            },
        },
{
    if let Err(error) = outcome {
        if is_shown_in_full(error.message@) {
            lemma_given_reason(old(shell).auth@, error.message@);
        }
    }
}

/// A machine that has reconnected ends the attempt that waits for it, and closes its popup. No other
/// attempt is touched.
pub proof fn law_reconnection_ends_the_wait(
    attempt: &mut Option<Authentication>,
    endpoint_id: ClientEndpointId,
    shell: &mut ClientShellState,
)
    requires
        call_ensures(verified, (attempt, &endpoint_id, shell), ()),
    ensures
        match *old(attempt) {
            Some(auth) if auth.verifying_until is Some && machine_of(auth) == endpoint_id@ => {
                &&& *final(attempt) is None
                &&& final(shell).auth.popup is None
                &&& *final(shell) == (ClientShellState { auth: final(shell).auth, ..*old(shell) })
                &&& final(shell).auth@.required == old(shell).auth@.required
                &&& final(shell).auth@.hover == old(shell).auth@.hover
            },
            _ => *final(attempt) == *old(attempt) && *final(shell) == *old(shell),
        },
{
}

/// An error of a machine fails the attempt that waits for it only where the machine wants attention;
/// any other error may pass, and of any other machine, and changes nothing.
pub proof fn law_only_permanent_errors_fail(
    attempt: &mut Option<Authentication>,
    endpoint_id: ClientEndpointId,
    supervisors: &mut EndpointSupervisors,
    shell: &mut ClientShellState,
    message: &str,
    i: int,
)
    requires
        call_ensures(rejected, (attempt, &endpoint_id, supervisors, shell, message), ()),
        is_first_listed(old(shell).endpoints@, endpoint_id@, i),
    ensures
        match *old(attempt) {
            Some(auth) if auth.verifying_until is Some && machine_of(auth) == endpoint_id@ && old(
                shell,
            ).endpoints@[i].status == ClientEndpointStatus::Attention => {
                &&& over_in_failure(
                    auth,
                    *old(supervisors),
                    *old(shell),
                    *final(attempt),
                    *final(supervisors),
                    *final(shell),
                )
                &&& is_shown_in_full(message@) ==> gives_reason(*final(shell), message@)
                &&& keeps_output_below(*old(shell), *final(shell), message@)
            },
            _ => {
                &&& *final(attempt) == *old(attempt)
                &&& final(supervisors)@ == old(supervisors)@
                &&& *final(shell) == *old(shell)
            },
        },
{
    lemma_status_of_first(old(shell).endpoints@, endpoint_id@, i);
    if is_shown_in_full(message@) {
        lemma_given_reason(old(shell).auth@, message@);
    }
}

/// The machine at position `i` is the first one that is `id`.
pub open spec fn is_first_listed(
    endpoints: Seq<ClientShellEndpoint>,
    id: EndpointIdView,
    i: int,
) -> bool {
    &&& 0 <= i < endpoints.len()
    &&& endpoints[i].endpoint_id@ == id
    &&& forall|j: int| 0 <= j < i ==> (#[trigger] endpoints[j]).endpoint_id@ != id
}

pub(crate) proof fn lemma_status_of_first(
    endpoints: Seq<ClientShellEndpoint>,
    id: EndpointIdView,
    i: int,
)
    requires
        is_first_listed(endpoints, id, i),
    ensures
        status_of(endpoints, id) == Some(endpoints[i].status),
    decreases i,
{
    if i > 0 {
        assert(endpoints[0].endpoint_id@ != id);
        let rest = endpoints.drop_first();
        assert forall|j: int| 0 <= j < i - 1 implies (#[trigger] rest[j]).endpoint_id@ != id by {
            assert(rest[j] == endpoints[j + 1]);
        }
        lemma_status_of_first(rest, id, i - 1);
    }
}

pub(crate) proof fn lemma_status_of_none(endpoints: Seq<ClientShellEndpoint>, id: EndpointIdView)
    requires
        forall|j: int| 0 <= j < endpoints.len() ==> (#[trigger] endpoints[j]).endpoint_id@ != id,
    ensures
        status_of(endpoints, id) is None,
    decreases endpoints.len(),
{
    if endpoints.len() > 0 {
        let rest = endpoints.drop_first();
        assert forall|j: int| 0 <= j < rest.len() implies (#[trigger] rest[j]).endpoint_id@
            != id by {
            assert(rest[j] == endpoints[j + 1]);
        }
        lemma_status_of_none(rest, id);
    }
}

/// An error of a machine that is not listed changes nothing.
pub proof fn law_unlisted_errors_pass(
    attempt: &mut Option<Authentication>,
    endpoint_id: ClientEndpointId,
    supervisors: &mut EndpointSupervisors,
    shell: &mut ClientShellState,
    message: &str,
)
    requires
        call_ensures(rejected, (attempt, &endpoint_id, supervisors, shell, message), ()),
        forall|j: int|
            0 <= j < old(shell).endpoints@.len() ==> (#[trigger] old(
                shell,
            ).endpoints@[j]).endpoint_id@ != endpoint_id@,
    ensures
        *final(attempt) == *old(attempt),
        final(supervisors)@ == old(supervisors)@,
        *final(shell) == *old(shell),
{
    lemma_status_of_none(old(shell).endpoints@, endpoint_id@);
}

/// A popup whose program fails shows the program's last output, filtered, below the reason.
pub proof fn law_failure_shows_last_output(
    attempt: &mut Option<Authentication>,
    supervisors: &mut EndpointSupervisors,
    shell: &mut ClientShellState,
    now: u64,
    turn: PollTurn,
    screen: Screen,
    result: PollStep,
    filtered: String,
    message: String,
    output: &str,
    told: String,
)
    requires
        call_ensures(
            poll_after_draw,
            (attempt, supervisors, shell, now, turn, Ok(screen)),
            result,
        ),
        authenticates(*old(attempt)),
        turn.exit == Some(false),
        old(shell).auth.popup matches Some(popup) && popup.phase == Phase::Authenticating,
        call_ensures(safe_text, (screen.text,), filtered),
        output@ == filtered@,
        message@ == "SSH authentication did not complete. Close the popup and try again."@,
        call_ensures(failure_text, (message, output, old(shell).auth.popup->0.size.1), told),
    ensures
        final(shell).auth.popup matches Some(popup) && popup.text@ == told@,
{
}

/// What the terminal shows is shown filtered, while the popup authenticates.
pub proof fn law_drawing_is_filtered(
    attempt: &mut Option<Authentication>,
    supervisors: &mut EndpointSupervisors,
    shell: &mut ClientShellState,
    now: u64,
    turn: PollTurn,
    screen: Screen,
    result: PollStep,
    filtered: String,
)
    requires
        call_ensures(
            poll_after_draw,
            (attempt, supervisors, shell, now, turn, Ok(screen)),
            result,
        ),
        authenticates(*old(attempt)),
        turn.exit is None,
        old(shell).auth.popup matches Some(popup) && popup.phase == Phase::Authenticating,
        call_ensures(safe_text, (screen.text,), filtered),
    ensures
        final(shell).auth.popup matches Some(popup) && popup.text@ == filtered@,
{
}

/// A poll of an attempt that has waited long enough for its machine tells so. One that still waits
/// has nothing to do. One that authenticates has the terminal given the size of the popup first, a
/// cell at least, where there is a popup of another size.
pub proof fn law_poll_of_attempt_begins(
    auth: &mut Authentication,
    shell: &mut ClientShellState,
    now: u64,
    step: AuthStep,
)
    requires
        call_ensures(Authentication::poll, (auth, shell, now), step),
        old(auth).well_formed(),
    ensures
        ({
            let size = old(shell).auth.popup->0.size;
            let wanted = (if size.0 > 0 { size.0 } else { 1 }, if size.1 > 0 { size.1 } else { 1 });
            if old(auth).verifying_until is Some {
                &&& *final(auth) == *old(auth)
                &&& *final(shell) == *old(shell)
                &&& now >= old(auth).verifying_until->0 ==> (step matches AuthStep::Finished(
                    Err(error),
                ) && error.kind == ErrorKind::TimedOut && error.message@
                    == "SSH authenticated, but the machine did not reconnect. Close and try again."@)
                &&& now < old(auth).verifying_until->0 ==> step == AuthStep::Finished(
                    Ok((false, false)),
                )
            } else if old(shell).auth.popup is Some && wanted != old(auth).size {
                &&& *final(auth) == *old(auth)
                &&& *final(shell) == *old(shell)
                &&& step == AuthStep::Resize(PollTurn { size: wanted, resized: true, exit: None })
            } else {
                &&& !(step is Resize)
                &&& step matches AuthStep::Ask(turn) ==> turn == PollTurn {
                    size: old(auth).size,
                    resized: false,
                    exit: None,
                }
            }
        }),
{
}

/// A resize that failed is told, and nothing changes; one that was made gives the attempt its size.
pub proof fn law_attempt_is_resized(
    auth: &mut Authentication,
    shell: &mut ClientShellState,
    now: u64,
    turn: PollTurn,
    outcome: Result<(), AuthError>,
    step: AuthStep,
)
    requires
        call_ensures(Authentication::resume_resized, (auth, shell, now, turn, outcome), step),
    ensures
        final(auth).profile == old(auth).profile,
        match outcome {
            Err(error) => {
                &&& *final(auth) == *old(auth)
                &&& *final(shell) == *old(shell)
                &&& step matches AuthStep::Finished(Err(told)) && told@ == error@
            },
            Ok(_) => {
                &&& final(auth).size == turn.size
                &&& step matches AuthStep::Ask(asked) ==> asked == turn
                &&& !(step is Resize)
            },
        },
{
}

/// A poll of the process with the status that was asked for leaves `after`, with `output` and
/// `exit`.
pub open spec fn polls_to(
    before: Authentication,
    waited: Result<Option<bool>, AuthError>,
    after: ProcessView,
    output: Seq<u8>,
    exit: Option<bool>,
) -> bool {
    before.process->0@.polled(result_view(waited), after, Ok(PollView { output, exit }))
}

/// The process is polled once, and what that found decides. Output is drawn where some came or the
/// terminal was resized; the program is not asked for its status again. Without output, the poll
/// finishes: with nothing changed, while the end is not told; with the error of a program that ended
/// without success; or with the machine to be tried again where the program succeeded.
pub proof fn law_process_is_polled(
    auth: &mut Authentication,
    shell: &mut ClientShellState,
    now: u64,
    turn: PollTurn,
    waited: Result<Option<bool>, AuthError>,
    step: AuthStep,
)
    requires
        call_ensures(Authentication::resume_asked, (auth, shell, now, turn, waited), step),
        now + 30_000_000_000 <= u64::MAX,
    ensures
        final(auth).profile == old(auth).profile && final(auth).size == old(auth).size,
        ({
            let process = final(auth).process->0@;
            let none = Seq::<u8>::empty();
            match step {
                AuthStep::Draw(drawn, output) => {
                    &&& turn.resized || output@.len() > 0
                    &&& drawn.size == turn.size && drawn.resized == turn.resized
                    &&& *final(shell) == *old(shell)
                    &&& final(auth).process is Some
                    &&& final(auth).pending_input == old(auth).pending_input
                    &&& final(auth).verifying_until == old(auth).verifying_until
                    &&& polls_to(*old(auth), waited, process, output@, drawn.exit)
                },
                AuthStep::Finished(Err(error)) => {
                    &&& *final(shell) == *old(shell)
                    &&& final(auth).process is Some
                    &&& final(auth).pending_input == old(auth).pending_input
                    &&& final(auth).verifying_until == old(auth).verifying_until
                    &&& {
                        ||| old(auth).process->0@.polled(
                            result_view(waited),
                            process,
                            Err(error@),
                        )
                        ||| {
                            &&& !turn.resized
                            &&& polls_to(*old(auth), waited, process, none, Some(false))
                            &&& error.kind == ErrorKind::Other
                            &&& error.message@
                                == "SSH authentication did not complete. Close the popup and try again."@
                        }
                    }
                },
                AuthStep::Finished(Ok((changed, verify))) => {
                    &&& !turn.resized
                    &&& changed == verify
                    &&& !verify ==> {
                        &&& *final(shell) == *old(shell)
                        &&& final(auth).process is Some
                        &&& final(auth).pending_input == old(auth).pending_input
                        &&& final(auth).verifying_until == old(auth).verifying_until
                        &&& polls_to(*old(auth), waited, process, none, None)
                    }
                    &&& verify ==> {
                        &&& final(auth).process is None
                        &&& final(auth).pending_input@.len() == 0
                        &&& final(auth).verifying_until == Some((now + 30_000_000_000) as u64)
                        &&& only_popup_differs(*old(shell), *final(shell))
                        &&& exists|after: ProcessView| #[trigger]
                            polls_to(*old(auth), waited, after, none, Some(true))
                    }
                },
                _ => false,
            }
        }),
{
    let before = old(auth).process->0@;
    let (process, polled) = choose|process: SshAuthProcess, polled: Result<PollView, ErrorView>|
        {
            let middle = Authentication { process: Some(process), ..*old(auth) };
            &&& #[trigger] before.polled(result_view(waited), process@, polled)
            &&& match polled {
                Err(error) => {
                    &&& *final(auth) == middle
                    &&& *final(shell) == *old(shell)
                    &&& step@ == StepView::Finished(Err(error))
                },
                Ok(poll) => if turn.resized || poll.output.len() > 0 {
                    &&& *final(auth) == middle
                    &&& *final(shell) == *old(shell)
                    &&& step@ == StepView::Draw(PollTurn { exit: poll.exit, ..turn }, poll.output)
                } else {
                    &&& step@ is Finished
                    &&& settled(
                        middle,
                        *old(shell),
                        now,
                        false,
                        poll.exit,
                        *final(auth),
                        *final(shell),
                        step@->Finished_0,
                    )
                },
            }
        };
    if let Ok(poll) = polled {
        assert(polls_to(*old(auth), waited, process@, poll.output, poll.exit));
        if poll.output.len() == 0 {
            assert(poll.output =~= Seq::<u8>::empty());
        }
    }
}

/// Once the terminal has taken the output, the poll is finished: by the error of the terminal; by
/// that of a program that ended without success; or by a change, and by the machine to be tried
/// again where the program succeeded.
pub proof fn law_drawing_finishes_the_poll(
    auth: &mut Authentication,
    shell: &mut ClientShellState,
    now: u64,
    turn: PollTurn,
    outcome: Result<Screen, AuthError>,
    step: AuthStep,
)
    requires
        call_ensures(Authentication::resume_drawn, (auth, shell, now, turn, outcome), step),
    ensures
        match outcome {
            Err(error) => {
                &&& *final(auth) == *old(auth)
                &&& *final(shell) == *old(shell)
                &&& step matches AuthStep::Finished(Err(told)) && told@ == error@
            },
            Ok(_) => match turn.exit {
                None => *final(auth) == *old(auth) && step == AuthStep::Finished(Ok((true, false))),
                Some(false) => {
                    &&& *final(auth) == *old(auth)
                    &&& step matches AuthStep::Finished(Err(error)) && error.kind
                        == ErrorKind::Other && error.message@
                        == "SSH authentication did not complete. Close the popup and try again."@
                },
                Some(true) => {
                    &&& step == AuthStep::Finished(Ok((true, true)))
                    &&& final(auth).process is None
                    &&& final(auth).pending_input@.len() == 0
                    &&& now + 30_000_000_000 <= u64::MAX ==> final(auth).verifying_until == Some(
                        (now + 30_000_000_000) as u64,
                    )
                    &&& final(auth).profile == old(auth).profile
                    &&& final(auth).size == old(auth).size
                },
            },
        },
        only_popup_differs(*old(shell), *final(shell)),
{
}

} // verus!
