//! What goes to the program on the PTY, and what comes from it.
use portable_pty::CommandBuilder;
use std::sync::mpsc::{Receiver, SyncSender};
use vstd::prelude::*;

use crate::error::{result_view, AuthError, ErrorKind};
use crate::ssh_auth::{
    are_apart, command_argv, command_cwd, command_env, env_agrees, event_views, first_stop,
    gathered, is_drain, is_last_change, is_unchanged, lowercase_of, must_kill, offers_made,
    output_of, poll_view, pty_error, reader_goes_on, reader_step, replies_given, sent,
    sent_pieces, size, starts_from, AuthCommand, AuthPoll, ChannelEvent, ChannelView, OutputPiece,
    ProcessView, PtySize, ReadOutcome, ReaderStep, SendOutcome, SshAuthProcess, CHUNK_BYTES,
    INPUT_CHUNKS, MAX_WRITE_BYTES, OUTPUT_CHUNKS, POLL_BYTES, POLL_CHUNKS,
};
use crate::ssh_authentication::{terminal_error, INPUT_LIMIT};

verus! {

/// The bytes of all chunks among the replies, in order.
pub open spec fn bytes_in(replies: Seq<ChannelView>) -> Seq<u8>
    decreases replies.len(),
{
    if replies.len() == 0 {
        Seq::empty()
    } else {
        (match replies[0] {
            ChannelView::Chunk(bytes) => bytes,
            _ => Seq::empty(),
        }) + bytes_in(replies.drop_first())
    }
}

/// Writing bytes comes to offering them once, as one piece, where there are 1 to 4096 of them and
/// the input is open; the result tells what came of it. Nothing is offered otherwise: no bytes are
/// no error, too many are to be tried again in pieces, and a closed input is a broken pipe.
pub proof fn law_write_offers_once(
    process: &mut SshAuthProcess,
    bytes: &[u8],
    result: Result<(), AuthError>,
)
    requires
        call_ensures(SshAuthProcess::write, (process, bytes), result),
    ensures
        final(process).output == old(process).output,
        final(process).output_done == old(process).output_done,
        final(process).exit == old(process).exit,
        final(process).failed == old(process).failed,
        if bytes@.len() == 0 {
            result is Ok && final(process)@ == old(process)@
        } else if bytes@.len() > 4096 {
            &&& result matches Err(error) && error.kind == ErrorKind::WouldBlock && error.message@
                == "PTY input chunk too large"@
            &&& final(process)@ == old(process)@
        } else {
            match old(process).input {
                None => {
                    &&& result matches Err(error) && error.kind == ErrorKind::BrokenPipe
                    &&& final(process).input is None
                },
                Some(input) => {
                    &&& final(process).input matches Some(now)
                    &&& offers_made(now).len() == offers_made(input).len() + 1
                    &&& offers_made(now).drop_last() == offers_made(input)
                    &&& offers_made(now).last().0 == bytes@
                    &&& match offers_made(now).last().1 {
                        SendOutcome::Sent => result is Ok,
                        SendOutcome::Full => result matches Err(error) && error.kind
                            == ErrorKind::WouldBlock,
                        SendOutcome::Disconnected => result matches Err(error) && error.kind
                            == ErrorKind::BrokenPipe,
                    }
                },
            }
        },
{
    if old(process).input is Some && 0 < bytes@.len() <= 4096 {
        let before = old(process)@;
        let outcome = choose|outcome: SendOutcome|
            final(process)@ == #[trigger] before.offered(bytes@, outcome) && result_view(result)
                == crate::ssh_auth::send_result(outcome);
        assert(offers_made(final(process).input->0) == offers_made(old(process).input->0).push(
            (bytes@, outcome),
        ));
        assert(offers_made(final(process).input->0).drop_last() =~= offers_made(
            old(process).input->0,
        ));
    }
}

/// The pieces that went into a channel are those of the offers that it took, in order.
pub proof fn law_pieces_are_those_taken(
    offers: Seq<(Seq<u8>, SendOutcome)>,
    piece: Seq<u8>,
    outcome: SendOutcome,
)
    ensures
        sent_pieces(Seq::empty()).len() == 0,
        sent_pieces(offers.push((piece, outcome))) == if outcome is Sent {
            sent_pieces(offers).push(piece)
        } else {
            sent_pieces(offers)
        },
{
    assert(offers.push((piece, outcome)).drop_last() =~= offers);
}

/// The output of replies is the bytes of their chunks, in order.
pub proof fn law_output_is_the_chunks(replies: Seq<ChannelView>)
    ensures
        output_of(replies) == bytes_in(replies),
    decreases replies.len(),
{
    if replies.len() > 0 {
        law_output_is_the_chunks(replies.drop_last());
        lemma_bytes_in_last(replies);
    } else {
        assert(output_of(replies) =~= bytes_in(replies));
    }
}

proof fn lemma_bytes_in_last(replies: Seq<ChannelView>)
    requires
        replies.len() > 0,
    ensures
        bytes_in(replies) == bytes_in(replies.drop_last()) + match replies.last() {
            ChannelView::Chunk(bytes) => bytes,
            _ => Seq::empty(),
        },
    decreases replies.len(),
{
    let last = match replies.last() {
        ChannelView::Chunk(bytes) => bytes,
        _ => Seq::empty(),
    };
    if replies.len() == 1 {
        assert(replies.drop_first().len() == 0);
        assert(bytes_in(replies.drop_first()) =~= Seq::empty());
        assert(bytes_in(replies.drop_last()) =~= Seq::empty());
        assert(bytes_in(replies) =~= last);
        assert(bytes_in(replies.drop_last()) + last =~= last);
    } else {
        let rest = replies.drop_first();
        lemma_bytes_in_last(rest);
        assert(rest.drop_last() =~= replies.drop_last().drop_first());
        assert(rest.last() == replies.last());
        assert(replies.drop_last()[0] == replies[0]);
        assert(bytes_in(replies) =~= bytes_in(replies.drop_last()) + last);
    }
}

proof fn lemma_gathered_is_bytes(events: Seq<ChannelView>)
    requires
        forall|i: int| 0 <= i < events.len() - 1 ==> #[trigger] events[i] is Chunk,
    ensures
        gathered(events) == bytes_in(events),
        first_stop(events) == if events.len() > 0 && !(events.last() is Chunk) {
            Some(events.last())
        } else {
            None
        },
    decreases events.len(),
{
    if events.len() > 0 {
        let rest = events.drop_first();
        assert forall|i: int| 0 <= i < rest.len() - 1 implies #[trigger] rest[i] is Chunk by {
            assert(rest[i] == events[i + 1]);
        }
        lemma_gathered_is_bytes(rest);
        if rest.len() == 0 {
            assert(events.last() == events[0]);
            assert(bytes_in(rest) =~= Seq::empty());
            assert(gathered(events) =~= bytes_in(events));
        } else {
            assert(events[0] is Chunk);
            assert(rest.last() == events.last());
        }
    } else {
        assert(gathered(events) =~= bytes_in(events));
    }
}

/// What is known of the program's end once its status was asked for: what was known before, or else
/// what the status says.
pub open spec fn exit_known(
    before: Option<bool>,
    waited: Result<Option<bool>, AuthError>,
) -> Option<bool> {
    match (before, waited) {
        (Some(success), _) => Some(success),
        (None, Ok(status)) => status,
        (None, Err(_)) => None,
    }
}

/// A poll without a status of the program, while its end is not known, returns that error and takes
/// nothing.
pub proof fn law_poll_without_status(
    process: &mut SshAuthProcess,
    error: AuthError,
    result: Result<AuthPoll, AuthError>,
)
    requires
        call_ensures(SshAuthProcess::poll, (process, Err(error)), result),
        old(process).exit is None,
    ensures
        result matches Err(told) && told@ == error@,
        final(process)@ == old(process)@,
{
}

/// A poll returns an error that was kept from the one before, and takes nothing.
pub proof fn law_poll_tells_kept_error(
    process: &mut SshAuthProcess,
    waited: Result<Option<bool>, AuthError>,
    result: Result<AuthPoll, AuthError>,
)
    requires
        call_ensures(SshAuthProcess::poll, (process, waited), result),
        old(process).exit is Some || waited is Ok,
        old(process).failed is Some,
    ensures
        result matches Err(told) && told@ == old(process).failed->0@,
        final(process).failed is None,
        final(process)@.output == old(process)@.output,
        final(process).output_done == old(process).output_done,
        final(process).exit == exit_known(old(process).exit, waited),
{
}

/// A poll of an open output asks the channel until it has no more to give, or sixteen times. It
/// returns all bytes that came. The end of the program is told once the channel has ended and the
/// status is known. An error of the channel is returned where no bytes came before it, and kept
/// otherwise.
pub proof fn law_poll_takes_what_waits(
    process: &mut SshAuthProcess,
    waited: Result<Option<bool>, AuthError>,
    result: Result<AuthPoll, AuthError>,
)
    requires
        call_ensures(SshAuthProcess::poll, (process, waited), result),
        old(process).exit is Some || waited is Ok,
        old(process).failed is None,
        old(process).output is Some,
    ensures
        final(process).output is Some,
        final(process)@.input == old(process)@.input,
        final(process).exit == exit_known(old(process).exit, waited),
        result matches Ok(poll) ==> poll.output@.len() <= 65536,
        ({
            let before = replies_given(old(process).output->0);
            let now = replies_given(final(process).output->0);
            let new = now.skip(before.len() as int);
            let known = exit_known(old(process).exit, waited);
            &&& before.len() < now.len() <= before.len() + 16
            &&& now.take(before.len() as int) == before
            &&& forall|i: int| 0 <= i < new.len() - 1 ==> #[trigger] new[i] is Chunk
            &&& new.len() == 16 || !(new.last() is Chunk)
            &&& match new.last() {
                ChannelView::Failed(error) => {
                    &&& final(process).output_done == old(process).output_done
                    &&& if bytes_in(new).len() == 0 {
                        &&& result matches Err(told) && told@ == error
                        &&& final(process).failed is None
                    } else {
                        &&& result matches Ok(poll) && poll.output@ == bytes_in(new)
                            && poll.exit is None
                        &&& final(process).failed matches Some(kept) && kept@ == error
                    }
                },
                ChannelView::Disconnected => {
                    &&& final(process).output_done
                    &&& final(process).failed is None
                    &&& result matches Ok(poll) && poll.output@ == bytes_in(new) && poll.exit
                        == known
                },
                _ => {
                    &&& final(process).output_done == old(process).output_done
                    &&& final(process).failed is None
                    &&& result matches Ok(poll) && poll.output@ == bytes_in(new) && poll.exit
                        == if old(process).output_done {
                        known
                    } else {
                        None
                    }
                },
            }
        }),
{
    let before = old(process)@;
    let asked = before.latched(if waited is Ok { waited->Ok_0 } else { None });
    let events = choose|events: Seq<ChannelView>| #[trigger]
        is_drain(before.output->0, events) && final(process)@ == asked.replied(events).settled(
            events,
        ) && poll_view(result) == asked.poll_result(events);
    let replies = replies_given(old(process).output->0);
    let now = replies_given(final(process).output->0);
    assert(final(process).output is Some);
    assert(now == replies + events);
    assert(now.skip(replies.len() as int) =~= events);
    assert(now.take(replies.len() as int) =~= replies);
    lemma_gathered_is_bytes(events);
}

/// A poll of a closed output finds none, and tells the end where it is known and the output had
/// ended before.
pub proof fn law_poll_of_closed_output(
    process: &mut SshAuthProcess,
    waited: Result<Option<bool>, AuthError>,
    result: Result<AuthPoll, AuthError>,
)
    requires
        call_ensures(SshAuthProcess::poll, (process, waited), result),
        old(process).exit is Some || waited is Ok,
        old(process).failed is None,
        old(process).output is None,
    ensures
        result matches Ok(poll) && poll.output@.len() == 0 && poll.exit == if old(
            process,
        ).output_done {
            exit_known(old(process).exit, waited)
        } else {
            None
        },
        final(process)@ == (ProcessView {
            exit: exit_known(old(process).exit, waited),
            ..old(process)@
        }),
{
}

/// Of what came from the channel, the chunks before anything else are the output; what stands behind
/// them, at position `k`, decides, and nothing behind that counts.
pub proof fn law_first_stop_decides(
    process: &mut SshAuthProcess,
    events: Vec<ChannelEvent>,
    result: Result<AuthPoll, AuthError>,
    k: int,
    output: Seq<u8>,
)
    requires
        call_ensures(SshAuthProcess::settle, (process, &events), result),
        0 <= k <= events@.len(),
        forall|i: int| 0 <= i < k ==> #[trigger] events@[i] is Chunk,
        k < events@.len() ==> !(events@[k] is Chunk),
        output == bytes_in(event_views(events@.take(k))),
    ensures
        final(process).output == old(process).output,
        final(process).input == old(process).input,
        final(process).exit == old(process).exit,
        if k < events@.len() && events@[k] is Disconnected {
            &&& final(process).output_done
            &&& final(process)@.failed == old(process)@.failed
            &&& result matches Ok(poll) && poll.output@ == output && poll.exit == old(process).exit
        } else if k < events@.len() && events@[k] is Failed {
            let error = events@[k]->Failed_0;
            &&& final(process).output_done == old(process).output_done
            &&& output.len() == 0 ==> (result matches Err(told) && told@ == error@)
            &&& output.len() == 0 ==> final(process)@.failed == old(process)@.failed
            &&& output.len() > 0 ==> (result matches Ok(poll) && poll.output@ == output
                && poll.exit is None)
            &&& output.len() > 0 ==> final(process)@.failed == Some(error@)
        } else {
            &&& final(process)@ == old(process)@
            &&& result matches Ok(poll) && poll.output@ == output && poll.exit == if old(
                process,
            ).output_done {
                old(process).exit
            } else {
                None
            }
        },
{
    let views = event_views(events@);
    assert(event_views(events@.take(k)) =~= views.take(k));
    assert forall|i: int| 0 <= i < k implies #[trigger] views[i] is Chunk by {
        assert(views[i] == events@[i]@);
    }
    if k < events@.len() {
        assert(views[k] == events@[k]@);
    }
    lemma_chunks_first(views, k);
}

proof fn lemma_chunks_first(events: Seq<ChannelView>, k: int)
    requires
        0 <= k <= events.len(),
        forall|i: int| 0 <= i < k ==> #[trigger] events[i] is Chunk,
        k < events.len() ==> !(events[k] is Chunk),
    ensures
        gathered(events) == bytes_in(events.take(k)),
        first_stop(events) == if k < events.len() {
            Some(events[k])
        } else {
            None
        },
    decreases k,
{
    if k == 0 {
        assert(bytes_in(events.take(0)) =~= Seq::empty());
        assert(gathered(events) =~= Seq::empty());
    } else {
        let rest = events.drop_first();
        assert forall|i: int| 0 <= i < k - 1 implies #[trigger] rest[i] is Chunk by {
            assert(rest[i] == events[i + 1]);
        }
        assert(events[0] is Chunk);
        lemma_chunks_first(rest, k - 1);
        assert(events.take(k).drop_first() =~= rest.take(k - 1));
        assert(events.take(k)[0] == events[0]);
    }
}

/// A poll takes what sixteen pieces hold at most; as much output may wait as two polls take, and as
/// much input in the channel as may wait before it.
pub proof fn law_what_may_wait()
    ensures
        POLL_CHUNKS * CHUNK_BYTES == POLL_BYTES,
        OUTPUT_CHUNKS * CHUNK_BYTES == 2 * POLL_BYTES,
        INPUT_CHUNKS * MAX_WRITE_BYTES == INPUT_LIMIT,
{
}

/// A process begins with both channels open, nothing known of its end, and nothing kept.
pub proof fn law_process_begins(
    output: Receiver<Result<OutputPiece, AuthError>>,
    input: SyncSender<Vec<u8>>,
    process: SshAuthProcess,
)
    requires
        call_ensures(SshAuthProcess::new, (output, input), process),
    ensures
        process.output == Some(output),
        process.input == Some(input),
        !process.output_done,
        process.exit is None,
        process.failed is None,
{
}

/// Shutting down closes both channels and forgets nothing else.
pub proof fn law_shutdown_closes(process: &mut SshAuthProcess)
    requires
        call_ensures(SshAuthProcess::shutdown, (process,), ()),
    ensures
        final(process).output is None,
        final(process).input is None,
        final(process).exit == old(process).exit,
        final(process).output_done == old(process).output_done,
        final(process).failed == old(process).failed,
{
}

/// The status is wanted until the end is known.
pub proof fn law_status_is_wanted(process: SshAuthProcess, wanted: bool)
    requires
        call_ensures(SshAuthProcess::wants_status, (&process,), wanted),
    ensures
        wanted == !(process.exit is Some),
{
}

/// What came of an offer is told: success only where the channel took it, and to be tried again only
/// where it was full.
pub proof fn law_outcome_is_told(outcome: SendOutcome, result: Result<(), AuthError>)
    requires
        call_ensures(sent, (outcome,), result),
    ensures
        result is Ok <==> outcome == SendOutcome::Sent,
        outcome == SendOutcome::Full ==> (result matches Err(error) && error.kind
            == ErrorKind::WouldBlock && error.message@ == "operation would block"@),
        outcome == SendOutcome::Disconnected ==> (result matches Err(error) && error.kind
            == ErrorKind::BrokenPipe && error.message@ == "broken pipe"@),
{
}

/// A read that gives bytes is passed on, just those bytes; one that gives none stops the reader. An
/// error is passed on, unless it is an interruption, after which the reader tries again.
pub proof fn law_reader_passes_on(outcome: ReadOutcome, buffer: &[u8], step: ReaderStep)
    requires
        call_ensures(reader_step, (outcome, buffer), step),
        outcome matches ReadOutcome::Read(count) ==> count <= buffer@.len(),
    ensures
        match outcome {
            ReadOutcome::Read(count) => if count == 0 {
                step is Stop
            } else {
                &&& step matches ReaderStep::Pass(Ok(piece))
                &&& piece@.len() == count
                &&& forall|i: int| 0 <= i < count ==> #[trigger] piece@[i] == buffer@[i]
            },
            ReadOutcome::Failed(error) => if error.kind == ErrorKind::Interrupted {
                step is Retry
            } else {
                step matches ReaderStep::Pass(Err(passed)) && passed@ == error@
            },
        },
{
}

/// The reader goes on only where what it passed on was taken and was no error.
pub proof fn law_reader_goes_on(failed: bool, taken: bool, goes_on: bool)
    requires
        call_ensures(reader_goes_on, (failed, taken), goes_on),
    ensures
        failed ==> !goes_on,
        !taken ==> !goes_on,
        !failed && taken ==> goes_on,
{
}

/// A program is killed unless it is known to have ended.
pub proof fn law_program_is_killed(waited: Result<Option<bool>, AuthError>, kill: bool)
    requires
        call_ensures(must_kill, (&waited,), kill),
    ensures
        waited is Err ==> kill,
        waited matches Ok(status) ==> kill == (status is None),
{
}

/// A PTY has the cells that were asked for, one at least each way, and no pixels.
pub proof fn law_size_of_a_pty(cols: u16, rows: u16, cells: PtySize)
    requires
        call_ensures(size, (cols, rows), cells),
    ensures
        cells.cols >= 1 && cells.rows >= 1,
        cols >= 1 ==> cells.cols == cols,
        rows >= 1 ==> cells.rows == rows,
        cols == 0 ==> cells.cols == 1,
        rows == 0 ==> cells.rows == 1,
        cells.pixel_width == 0 && cells.pixel_height == 0,
{
}

/// Errors of the PTY and of the terminal keep their words.
pub proof fn law_errors_keep_their_words(message: String, pty: AuthError, terminal: AuthError)
    requires
        call_ensures(pty_error, (message,), pty),
        call_ensures(terminal_error, (message,), terminal),
    ensures
        pty.kind == ErrorKind::Other && pty.message@ == message@,
        terminal.kind == ErrorKind::Other && terminal.message@ == message@,
{
}

/// A piece of output holds just the bytes that it is made of, 4096 at most.
pub proof fn law_piece_holds_its_bytes(
    bytes: Vec<u8>,
    piece: Option<OutputPiece>,
    held: &Vec<u8>,
)
    requires
        call_ensures(OutputPiece::new, (bytes,), piece),
        piece matches Some(some) ==> call_ensures(OutputPiece::bytes, (&some,), held),
    ensures
        piece is Some <==> bytes@.len() <= 4096,
        piece is Some ==> held@ == bytes@,
{
}

/// A command is described literally: the program, then each argument as it is, in order; the
/// directory where one is given; and ssh asks on the terminal.
pub proof fn law_command_is_literal(command: AuthCommand, described: CommandBuilder)
    requires
        call_ensures(AuthCommand::describe, (&command,), described),
    ensures
        command_argv(described).len() == 1 + command.args@.len(),
        command_argv(described)[0] == command.program@,
        forall|i: int|
            #![trigger command.args@[i]]
            0 <= i < command.args@.len() ==> command_argv(described)[i + 1] == command.args@[i]@,
        match command.cwd {
            Some(dir) => command_cwd(described) == Some(dir@),
            None => command_cwd(described) is None,
        },
        command_env(described).contains_key("SSH_ASKPASS_REQUIRE"@),
        command_env(described)["SSH_ASKPASS_REQUIRE"@] == "never"@,
{
}

/// A command is applied to another literally, in the same way; what is given of neither stays.
pub proof fn law_command_is_applied(
    command: AuthCommand,
    base: CommandBuilder,
    applied: CommandBuilder,
)
    requires
        call_ensures(AuthCommand::apply_to, (&command, base), applied),
    ensures
        command_argv(applied).len() == command_argv(base).len() + command.args@.len(),
        forall|i: int|
            #![trigger command_argv(base)[i]]
            0 <= i < command_argv(base).len() ==> command_argv(applied)[i] == command_argv(base)[i],
        forall|i: int|
            #![trigger command.args@[i]]
            0 <= i < command.args@.len() ==> command_argv(applied)[command_argv(base).len() + i]
                == command.args@[i]@,
        match command.cwd {
            Some(dir) => command_cwd(applied) == Some(dir@),
            None => command_cwd(applied) == command_cwd(base),
        },
        command_env(applied).contains_key("SSH_ASKPASS_REQUIRE"@),
        command_env(applied)["SSH_ASKPASS_REQUIRE"@] == "never"@,
{
}

/// Names are of different variables exactly where they differ in lower case.
pub proof fn law_names_apart(a: &str, b: &str, apart: bool)
    requires
        call_ensures(are_apart, (a, b), apart),
    ensures
        apart == (lowercase_of(a@) != lowercase_of(b@)),
{
}

/// A change to a variable is found in the description, unless the variable is changed once more or
/// tells ssh where to ask. A variable that is not changed is what it was in a command that
/// describes the program alone.
pub proof fn law_changes_are_described(
    command: AuthCommand,
    described: CommandBuilder,
    i: int,
    name: Seq<char>,
)
    requires
        call_ensures(AuthCommand::describe, (&command,), described),
    ensures
        0 <= i < command.envs@.len() && (forall|j: int|
            i < j < command.envs@.len() ==> lowercase_of((#[trigger] command.envs@[j]).0@)
                != lowercase_of(command.envs@[i].0@)) && lowercase_of(command.envs@[i].0@)
            != lowercase_of("SSH_ASKPASS_REQUIRE"@) ==> match command.envs@[i].1 {
            Some(value) => command_env(described).contains_key(command.envs@[i].0@)
                && command_env(described)[command.envs@[i].0@] == value@,
            None => !command_env(described).contains_key(command.envs@[i].0@),
        },
        (forall|j: int|
            0 <= j < command.envs@.len() ==> lowercase_of((#[trigger] command.envs@[j]).0@)
                != lowercase_of(name)) && lowercase_of(name) != lowercase_of(
            "SSH_ASKPASS_REQUIRE"@,
        ) ==> exists|base: CommandBuilder| #[trigger]
            starts_from(command.program@, base) && command_env(described).contains_key(name)
                == command_env(base).contains_key(name) && (command_env(base).contains_key(name)
                ==> command_env(described)[name] == command_env(base)[name]),
{
    let base = choose|base: CommandBuilder| #[trigger]
        command.applied(base, described) && starts_from(command.program@, base);
    if 0 <= i < command.envs@.len() && (forall|j: int|
        i < j < command.envs@.len() ==> lowercase_of((#[trigger] command.envs@[j]).0@)
            != lowercase_of(command.envs@[i].0@)) && lowercase_of(command.envs@[i].0@)
        != lowercase_of("SSH_ASKPASS_REQUIRE"@) {
        assert(is_last_change(command.envs@, i));
        crate::ssh_auth::law_last_change_wins(command, base, described, i);
    }
    if (forall|j: int|
        0 <= j < command.envs@.len() ==> lowercase_of((#[trigger] command.envs@[j]).0@)
            != lowercase_of(name)) && lowercase_of(name) != lowercase_of("SSH_ASKPASS_REQUIRE"@) {
        assert(is_unchanged(command.envs@, name));
        crate::ssh_auth::law_other_variables_stay(command, base, described, name);
        assert(env_agrees(command_env(base), command_env(described), name));
    }
}

/// A change to a variable is what the program finds of it, unless the variable is changed once more
/// or tells ssh where to ask.
pub proof fn law_change_reaches_the_program(
    command: AuthCommand,
    base: CommandBuilder,
    applied: CommandBuilder,
    i: int,
)
    requires
        call_ensures(AuthCommand::apply_to, (&command, base), applied),
        0 <= i < command.envs@.len(),
        forall|j: int|
            i < j < command.envs@.len() ==> lowercase_of((#[trigger] command.envs@[j]).0@)
                != lowercase_of(command.envs@[i].0@),
        lowercase_of(command.envs@[i].0@) != lowercase_of("SSH_ASKPASS_REQUIRE"@),
    ensures
        match command.envs@[i].1 {
            Some(value) => command_env(applied).contains_key(command.envs@[i].0@) && command_env(
                applied,
            )[command.envs@[i].0@] == value@,
            None => !command_env(applied).contains_key(command.envs@[i].0@),
        },
{
    assert(is_last_change(command.envs@, i));
    crate::ssh_auth::law_last_change_wins(command, base, applied, i);
}

/// A variable that is neither changed nor tells ssh where to ask is what it was.
pub proof fn law_unchanged_variable_stays(
    command: AuthCommand,
    base: CommandBuilder,
    applied: CommandBuilder,
    name: Seq<char>,
)
    requires
        call_ensures(AuthCommand::apply_to, (&command, base), applied),
        forall|j: int|
            0 <= j < command.envs@.len() ==> lowercase_of((#[trigger] command.envs@[j]).0@)
                != lowercase_of(name),
        lowercase_of(name) != lowercase_of("SSH_ASKPASS_REQUIRE"@),
    ensures
        command_env(applied).contains_key(name) == command_env(base).contains_key(name),
        command_env(base).contains_key(name) ==> command_env(applied)[name] == command_env(
            base,
        )[name],
{
    assert(is_unchanged(command.envs@, name));
    crate::ssh_auth::law_other_variables_stay(command, base, applied, name);
    assert(env_agrees(command_env(base), command_env(applied), name));
}

} // verus!
