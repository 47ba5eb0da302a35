//! Ephemeral, client-owned PTY for interactive SSH authentication.
//!
//! No shell interpolation, output history, logging, or server state. The caller owns rendering
//! and must retry input when `write` returns `WouldBlock`.
use portable_pty::CommandBuilder;
use std::sync::mpsc::{Receiver, SyncSender, TryRecvError, TrySendError};
use vstd::prelude::*;

use crate::error::{result_view, AuthError, ErrorKind, ErrorView};
use crate::rect::{at_least_one, max_one};

verus! {

/// The largest piece that is read from the PTY at once.
pub const CHUNK_BYTES: usize = 4096;

/// How many pieces of output may wait to be polled.
pub const OUTPUT_CHUNKS: usize = 32;

/// How many pieces of input may wait to be written.
pub const INPUT_CHUNKS: usize = 16;

/// How many bytes of output one poll takes.
pub const POLL_BYTES: usize = 65536;

/// How many pieces of output one poll takes.
pub const POLL_CHUNKS: usize = 16;

/// The largest piece of input that is taken at once.
pub const MAX_WRITE_BYTES: usize = 4096;

/// The variable that makes ssh ask on the terminal.
pub const ASKPASS_VARIABLE: &'static str = "SSH_ASKPASS_REQUIRE";

/// The error of a PTY operation.
pub fn pty_error(message: String) -> (error: AuthError)
    ensures
        error@ == (ErrorView { kind: ErrorKind::Other, message: message@ }),
{
    AuthError { kind: ErrorKind::Other, message }
}

/// Cells and pixels of a PTY.
#[derive(Clone, Copy, Debug, PartialEq, Eq, Structural)]
pub struct PtySize {
    pub rows: u16,
    pub cols: u16,
    pub pixel_width: u16,
    pub pixel_height: u16,
}

/// The size of a PTY: a cell at least, and no pixels.
pub fn size(cols: u16, rows: u16) -> (size: PtySize)
    ensures
        size == (PtySize {
            rows: at_least_one(rows),
            cols: at_least_one(cols),
            pixel_width: 0,
            pixel_height: 0,
        }),
{
    PtySize { rows: max_one(rows), cols: max_one(cols), pixel_width: 0, pixel_height: 0 }
}

/// portable_pty's description of a command.
#[verifier::external_type_specification]
#[verifier::external_body]
pub struct ExCommandBuilder(CommandBuilder);

/// The program and its arguments.
pub uninterp spec fn command_argv(command: CommandBuilder) -> Seq<Seq<char>>;

/// The directory to start in, if one is set.
pub uninterp spec fn command_cwd(command: CommandBuilder) -> Option<Seq<char>>;

/// The environment variables: each name by which one is found, with what is found.
pub uninterp spec fn command_env(command: CommandBuilder) -> Map<Seq<char>, Seq<char>>;

/// `text` in lower case.
pub uninterp spec fn lowercase_of(text: Seq<char>) -> Seq<char>;

pub open spec fn lower(c: char) -> char {
    if 'A' <= c <= 'Z' {
        (c as u32 + 32) as char
    } else {
        c
    }
}

pub open spec fn is_ascii_text(text: Seq<char>) -> bool {
    forall|i: int| 0 <= i < text.len() ==> (#[trigger] text[i]) as u32 <= 0x7f
}

/// `str::to_lowercase` gives the text in lower case by the rules of Unicode, which are left to its
/// name; of ASCII text, letter by letter.
#[verifier::external_body]
fn lowercase(text: &str) -> (lowered: String)
    ensures
        lowered@ == lowercase_of(text@),
        is_ascii_text(text@) ==> lowered@ == text@.map_values(|c: char| lower(c)),
{
    text.to_lowercase()
}

/// The names are of different variables, whether or not the host tells upper from lower case.
pub open spec fn names_apart(a: Seq<char>, b: Seq<char>) -> bool {
    lowercase_of(a) != lowercase_of(b)
}

/// Tells whether the names are of different variables on every host.
pub fn are_apart(a: &str, b: &str) -> (apart: bool)
    ensures
        apart == names_apart(a@, b@),
        is_ascii_text(a@) && is_ascii_text(b@) ==> apart == (a@.map_values(|c: char| lower(c))
            != b@.map_values(|c: char| lower(c))),
{
    lowercase(a) != lowercase(b)
}

/// Both environments have the variable `name` with the same value, or both lack it.
pub open spec fn env_agrees(
    a: Map<Seq<char>, Seq<char>>,
    b: Map<Seq<char>, Seq<char>>,
    name: Seq<char>,
) -> bool {
    a.contains_key(name) == b.contains_key(name) && (a.contains_key(name) ==> a[name] == b[name])
}

/// `after` has what `before` has of every variable but `name`.
#[verifier::opaque]
pub open spec fn env_kept(
    before: Map<Seq<char>, Seq<char>>,
    after: Map<Seq<char>, Seq<char>>,
    name: Seq<char>,
) -> bool {
    forall|other: Seq<char>|
        names_apart(other, name) ==> #[trigger] env_agrees(before, after, other)
}

/// `env` has the variable `name` with `value`, or lacks it where `value` is `None`.
pub open spec fn env_has(
    env: Map<Seq<char>, Seq<char>>,
    name: Seq<char>,
    value: Option<Seq<char>>,
) -> bool {
    match value {
        Some(value) => env.contains_key(name) && env[name] == value,
        None => !env.contains_key(name),
    }
}

/// `CommandBuilder::new` describes the program without arguments, to be started in no directory
/// of its own. Its environment is that of this process, of which nothing is said.
#[verifier::external_body]
fn new_command(program: &str) -> (command: CommandBuilder)
    ensures
        command_argv(command) == seq![program@],
        command_cwd(command) == None::<Seq<char>>,
{
    CommandBuilder::new(program)
}

/// `CommandBuilder::arg` appends an argument to a command that has a program.
#[verifier::external_body]
fn push_arg(command: &mut CommandBuilder, arg: &str)
    requires
        command_argv(*old(command)).len() > 0,
    ensures
        command_argv(*final(command)) == command_argv(*old(command)).push(arg@),
        command_cwd(*final(command)) == command_cwd(*old(command)),
        command_env(*final(command)) == command_env(*old(command)),
{
    command.arg(arg)
}

/// `CommandBuilder::cwd` sets the directory to start in.
#[verifier::external_body]
fn set_cwd(command: &mut CommandBuilder, dir: &str)
    ensures
        command_argv(*final(command)) == command_argv(*old(command)),
        command_cwd(*final(command)) == Some(dir@),
        command_env(*final(command)) == command_env(*old(command)),
{
    command.cwd(dir)
}

/// `CommandBuilder::env` sets an environment variable. Other variables are kept. A name is looked
/// up as it is, or in lower case on a host that does not tell the cases apart: so names that are
/// apart in lower case are of different variables on every host.
#[verifier::external_body]
fn set_env(command: &mut CommandBuilder, name: &str, value: &str)
    ensures
        command_argv(*final(command)) == command_argv(*old(command)),
        command_cwd(*final(command)) == command_cwd(*old(command)),
        env_has(command_env(*final(command)), name@, Some(value@)),
        env_kept(command_env(*old(command)), command_env(*final(command)), name@),
{
    command.env(name, value)
}

/// `CommandBuilder::env_remove` takes an environment variable away, and no other.
#[verifier::external_body]
fn remove_env(command: &mut CommandBuilder, name: &str)
    ensures
        command_argv(*final(command)) == command_argv(*old(command)),
        command_cwd(*final(command)) == command_cwd(*old(command)),
        env_has(command_env(*final(command)), name@, None),
        env_kept(command_env(*old(command)), command_env(*final(command)), name@),
{
    command.env_remove(name)
}

/// A command: the program, its literal arguments, the directory to start in, and the variables
/// to set, or to take away where there is no value.
#[derive(Debug, PartialEq, Eq)]
pub struct AuthCommand {
    pub program: String,
    pub args: Vec<String>,
    pub cwd: Option<String>,
    pub envs: Vec<(String, Option<String>)>,
}

pub open spec fn text_view(text: Option<String>) -> Option<Seq<char>> {
    match text {
        Some(text) => Some(text@),
        None => None,
    }
}

/// The change at position `i` is the last one to its variable.
pub open spec fn is_last_change(envs: Seq<(String, Option<String>)>, i: int) -> bool {
    forall|j: int| i < j < envs.len() ==> names_apart(envs[i].0@, (#[trigger] envs[j]).0@)
}

/// No change is to the variable `name`.
pub open spec fn is_unchanged(envs: Seq<(String, Option<String>)>, name: Seq<char>) -> bool {
    forall|j: int| 0 <= j < envs.len() ==> names_apart(name, (#[trigger] envs[j]).0@)
}

/// `base` is one that `CommandBuilder::new` may give for `program`: without arguments or a
/// directory, and with the environment of this process.
pub closed spec fn starts_from(program: Seq<char>, base: CommandBuilder) -> bool {
    exists|text: &str| text@ == program && #[trigger] call_ensures(new_command, (text,), base)
}

/// The changes made one after the other to `base` give `env`.
#[verifier::opaque]
pub open spec fn envs_applied(
    base: Map<Seq<char>, Seq<char>>,
    env: Map<Seq<char>, Seq<char>>,
    envs: Seq<(String, Option<String>)>,
) -> bool {
    &&& forall|i: int|
        #![trigger envs[i]]
        0 <= i < envs.len() && is_last_change(envs, i) ==> env_has(
            env,
            envs[i].0@,
            text_view(envs[i].1),
        )
    &&& forall|name: Seq<char>|
        is_unchanged(envs, name) ==> #[trigger] env_agrees(base, env, name)
}

/// Makes one change to the environment of `command`.
fn change_env(command: &mut CommandBuilder, change: &(String, Option<String>))
    ensures
        command_argv(*final(command)) == command_argv(*old(command)),
        command_cwd(*final(command)) == command_cwd(*old(command)),
        env_has(command_env(*final(command)), change.0@, text_view(change.1)),
        env_kept(command_env(*old(command)), command_env(*final(command)), change.0@),
{
    let name = change.0.as_str();
    match &change.1 {
        Some(value) => set_env(command, name, value.as_str()),
        None => remove_env(command, name),
    }
}

/// The changes to the environment give `command` what `base` has but for them, and make it ask
/// on the terminal whatever they say.
pub open spec fn env_changed(
    base: CommandBuilder,
    command: CommandBuilder,
    envs: Seq<(String, Option<String>)>,
) -> bool {
    &&& env_has(command_env(command), ASKPASS_VARIABLE@, Some("never"@))
    &&& exists|changed: Map<Seq<char>, Seq<char>>| #[trigger]
        envs_applied(command_env(base), changed, envs) && env_kept(
            changed,
            command_env(command),
            ASKPASS_VARIABLE@,
        )
}

impl AuthCommand {
    pub open spec fn arg_views(&self) -> Seq<Seq<char>> {
        self.args@.map_values(|arg: String| arg@)
    }

    /// `command` is `base` with this command's arguments, directory and changes to the
    /// environment, asking on the terminal.
    pub open spec fn applied(&self, base: CommandBuilder, command: CommandBuilder) -> bool {
        &&& command_argv(command) == command_argv(base) + self.arg_views()
        &&& command_cwd(command) == match self.cwd {
            Some(dir) => Some(dir@),
            None => command_cwd(base),
        }
        &&& env_changed(base, command, self.envs@)
    }

    /// `command` is this command, asking on the terminal whatever the environment says, with
    /// the environment of this process but for the changes.
    pub open spec fn described(&self, command: CommandBuilder) -> bool {
        &&& command_argv(command) == seq![self.program@] + self.arg_views()
        &&& command_cwd(command) == text_view(self.cwd)
        &&& exists|base: CommandBuilder| #[trigger]
            self.applied(base, command) && starts_from(self.program@, base)
    }

    /// Adds the arguments, the directory and the changes to the environment to `base`, and makes
    /// it ask on the terminal. The program is that of `base`.
    pub fn apply_to(&self, base: CommandBuilder) -> (command: CommandBuilder)
        requires
            self.args@.len() > 0 ==> command_argv(base).len() > 0,
        ensures
            self.applied(base, command),
    {
        let mut command = base;
        let mut i: usize = 0;
        let ghost args = self.arg_views();
        assert(command_argv(base) + args.take(0) =~= command_argv(base));
        while i < self.args.len()
            invariant
                i <= self.args.len(),
                args == self.arg_views(),
                self.args@.len() > 0 ==> command_argv(base).len() > 0,
                command_argv(command) == command_argv(base) + args.take(i as int),
                command_cwd(command) == command_cwd(base),
                command_env(command) == command_env(base),
            decreases self.args.len() - i,
        {
            push_arg(&mut command, self.args[i].as_str());
            i += 1;
            assert(command_argv(command) =~= command_argv(base) + args.take(i as int));
        }
        assert(args.take(i as int) =~= args);
        if let Some(dir) = &self.cwd {
            set_cwd(&mut command, dir.as_str());
        }
        let ghost cwd = command_cwd(command);
        i = 0;
        proof {
            reveal(envs_applied);
        }
        while i < self.envs.len()
            invariant
                i <= self.envs.len(),
                command_argv(command) == command_argv(base) + self.arg_views(),
                command_cwd(command) == cwd,
                envs_applied(
                    command_env(base),
                    command_env(command),
                    self.envs@.take(i as int),
                ),
            decreases self.envs.len() - i,
        {
            let ghost before = command_env(command);
            let ghost done = self.envs@.take(i as int);
            change_env(&mut command, &self.envs[i]);
            i += 1;
            proof {
                lemma_change_applied(
                    command_env(base),
                    before,
                    command_env(command),
                    done,
                    self.envs@[i - 1],
                );
                assert(self.envs@.take(i as int) =~= done.push(self.envs@[i - 1]));
            }
        }
        assert(self.envs@.take(i as int) =~= self.envs@);
        let ghost changed = command_env(command);
        set_env(&mut command, ASKPASS_VARIABLE, "never");
        assert(envs_applied(command_env(base), changed, self.envs@));
        command
    }

    /// Describes the command for a PTY. Nothing else of a command is used: the PTY owns the
    /// standard streams.
    pub fn describe(&self) -> (command: CommandBuilder)
        ensures
            self.described(command),
    {
        let base = new_command(self.program.as_str());
        assert(starts_from(self.program@, base));
        self.apply_to(base)
    }
}

proof fn lemma_change_applied(
    base: Map<Seq<char>, Seq<char>>,
    before: Map<Seq<char>, Seq<char>>,
    after: Map<Seq<char>, Seq<char>>,
    done: Seq<(String, Option<String>)>,
    change: (String, Option<String>),
)
    requires
        envs_applied(base, before, done),
        env_has(after, change.0@, text_view(change.1)),
        env_kept(before, after, change.0@),
    ensures
        envs_applied(base, after, done.push(change)),
{
    reveal(envs_applied);
    reveal(env_kept);
    let envs = done.push(change);
    let last = done.len() as int;
    assert(envs[last] == change);
    assert forall|i: int| #![trigger envs[i]] 0 <= i < envs.len() && is_last_change(envs, i)
        implies env_has(after, envs[i].0@, text_view(envs[i].1)) by {
        if i < last {
            assert(envs[i] == done[i]);
            assert(names_apart(envs[i].0@, envs[last].0@));
            assert(is_last_change(done, i)) by {
                assert forall|j: int| i < j < done.len() implies names_apart(
                    done[i].0@,
                    (#[trigger] done[j]).0@,
                ) by {
                    assert(envs[j] == done[j]);
                }
            }
            assert(env_agrees(before, after, done[i].0@));
        }
    }
    assert forall|name: Seq<char>| is_unchanged(envs, name) implies #[trigger] env_agrees(
        base,
        after,
        name,
    ) by {
        assert(names_apart(name, envs[last].0@));
        assert(is_unchanged(done, name)) by {
            assert forall|j: int| 0 <= j < done.len() implies names_apart(
                name,
                (#[trigger] done[j]).0@,
            ) by {
                assert(envs[j] == done[j]);
            }
        }
        assert(env_agrees(base, before, name));
        assert(env_agrees(before, after, name));
    }
}

/// The last change to a variable is what the program finds of it, unless ssh is told by it
/// where to ask.
pub proof fn law_last_change_wins(
    command: AuthCommand,
    base: CommandBuilder,
    applied: CommandBuilder,
    i: int,
)
    requires
        command.applied(base, applied),
        0 <= i < command.envs@.len(),
        is_last_change(command.envs@, i),
        names_apart(command.envs@[i].0@, ASKPASS_VARIABLE@),
    ensures
        env_has(command_env(applied), command.envs@[i].0@, text_view(command.envs@[i].1)),
{
    reveal(envs_applied);
    reveal(env_kept);
    let changed = choose|changed: Map<Seq<char>, Seq<char>>| #[trigger]
        envs_applied(command_env(base), changed, command.envs@) && env_kept(
            changed,
            command_env(applied),
            ASKPASS_VARIABLE@,
        );
    assert(env_agrees(changed, command_env(applied), command.envs@[i].0@));
}

/// A variable that is neither changed nor the one that tells ssh where to ask is as it was.
pub proof fn law_other_variables_stay(
    command: AuthCommand,
    base: CommandBuilder,
    applied: CommandBuilder,
    name: Seq<char>,
)
    requires
        command.applied(base, applied),
        is_unchanged(command.envs@, name),
        names_apart(name, ASKPASS_VARIABLE@),
    ensures
        env_agrees(command_env(base), command_env(applied), name),
{
    reveal(envs_applied);
    reveal(env_kept);
    let changed = choose|changed: Map<Seq<char>, Seq<char>>| #[trigger]
        envs_applied(command_env(base), changed, command.envs@) && env_kept(
            changed,
            command_env(applied),
            ASKPASS_VARIABLE@,
        );
    assert(env_agrees(command_env(base), changed, name));
    assert(env_agrees(changed, command_env(applied), name));
}

/// A piece of output: what one read gave, and never more than is read at once.
#[derive(Debug)]
pub struct OutputPiece {
    bytes: Vec<u8>,
}

impl View for OutputPiece {
    type V = Seq<u8>;

    closed spec fn view(&self) -> Seq<u8> {
        self.bytes@
    }
}

impl OutputPiece {
    #[verifier::type_invariant]
    spec fn is_bounded(self) -> bool {
        self.bytes@.len() <= CHUNK_BYTES
    }

    /// The piece of these bytes, unless they are too many for one.
    pub fn new(bytes: Vec<u8>) -> (piece: Option<OutputPiece>)
        ensures
            match piece {
                Some(piece) => piece@ == bytes@ && bytes@.len() <= CHUNK_BYTES,
                None => bytes@.len() > CHUNK_BYTES,
            },
    {
        if bytes.len() <= CHUNK_BYTES {
            Some(OutputPiece { bytes })
        } else {
            None
        }
    }

    pub fn bytes(&self) -> (bytes: &Vec<u8>)
        ensures
            bytes@ == self@,
            self@.len() <= CHUNK_BYTES,
    {
        proof {
            use_type_invariant(self);
        }
        &self.bytes
    }
}

/// What came of one read from the PTY.
pub enum ReadOutcome {
    Read(usize),
    Failed(AuthError),
}

/// What the reader does next.
pub enum ReaderStep {
    Stop,
    Retry,
    /// Pass this on; after an error nothing more is read.
    Pass(Result<OutputPiece, AuthError>),
}

pub open spec fn piece_view(piece: Result<OutputPiece, AuthError>) -> Result<Seq<u8>, ErrorView> {
    match piece {
        Ok(piece) => Ok(piece@),
        Err(error) => Err(error@),
    }
}

/// Decides on one read into `buffer`: the end of the output stops the reader, an interruption
/// does not count, and anything else is passed on.
pub fn reader_step(outcome: ReadOutcome, buffer: &[u8]) -> (step: ReaderStep)
    requires
        outcome matches ReadOutcome::Read(count) ==> count <= buffer@.len() && count
            <= CHUNK_BYTES,
    ensures
        match outcome {
            ReadOutcome::Read(count) => if count == 0 {
                step is Stop
            } else {
                step matches ReaderStep::Pass(passed) && piece_view(passed) == Ok::<
                    Seq<u8>,
                    ErrorView,
                >(buffer@.take(count as int))
            },
            ReadOutcome::Failed(error) => if error.kind == ErrorKind::Interrupted {
                step is Retry
            } else {
                step matches ReaderStep::Pass(passed) && piece_view(passed) == Err::<
                    Seq<u8>,
                    ErrorView,
                >(error@)
            },
        },
{
    match outcome {
        ReadOutcome::Read(count) => if count == 0 {
            ReaderStep::Stop
        } else {
            let read = vstd::slice::slice_to_vec(vstd::slice::slice_subrange(buffer, 0, count));
            assert(read@ =~= buffer@.take(count as int));
            ReaderStep::Pass(Ok(OutputPiece { bytes: read }))
        },
        ReadOutcome::Failed(error) => if error.kind == ErrorKind::Interrupted {
            ReaderStep::Retry
        } else {
            ReaderStep::Pass(Err(error))
        },
    }
}

/// Tells whether the reader goes on after it passed something on: not after an error, and not
/// once nobody takes the output any more.
pub fn reader_goes_on(failed: bool, taken: bool) -> (goes_on: bool)
    ensures
        goes_on == (taken && !failed),
{
    taken && !failed
}

/// The receiving end of a channel of std.
#[verifier::external_type_specification]
#[verifier::external_body]
#[verifier::reject_recursive_types(T)]
pub struct ExReceiver<T>(Receiver<T>);

/// The sending end of a bounded channel of std.
#[verifier::external_type_specification]
#[verifier::external_body]
#[verifier::reject_recursive_types(T)]
pub struct ExSyncSender<T>(SyncSender<T>);

/// What came of offering something to a channel.
#[derive(Clone, Copy, Debug, PartialEq, Eq, Structural)]
pub enum SendOutcome {
    Sent,
    Full,
    Disconnected,
}

/// What a channel had to give.
pub enum ChannelEvent {
    Chunk(OutputPiece),
    Failed(AuthError),
    Empty,
    Disconnected,
}

pub enum ChannelView {
    Chunk(Seq<u8>),
    Failed(ErrorView),
    Empty,
    Disconnected,
}

impl View for ChannelEvent {
    type V = ChannelView;

    open spec fn view(&self) -> ChannelView {
        match self {
            ChannelEvent::Chunk(piece) => ChannelView::Chunk(piece@),
            ChannelEvent::Failed(error) => ChannelView::Failed(error@),
            ChannelEvent::Empty => ChannelView::Empty,
            ChannelEvent::Disconnected => ChannelView::Disconnected,
        }
    }
}

/// What was offered to a channel through this end, in order, and what came of each offer.
pub uninterp spec fn offers_made(sender: SyncSender<Vec<u8>>) -> Seq<(Seq<u8>, SendOutcome)>;

/// What a channel replied at this end each time that it was asked, in order.
pub uninterp spec fn replies_given(
    receiver: Receiver<Result<OutputPiece, AuthError>>,
) -> Seq<ChannelView>;

/// The channel has told that nothing will come any more.
pub open spec fn has_ended(replies: Seq<ChannelView>) -> bool {
    replies.contains(ChannelView::Disconnected)
}

/// The pieces that went into the channel, in order.
pub open spec fn sent_pieces(offers: Seq<(Seq<u8>, SendOutcome)>) -> Seq<Seq<u8>>
    decreases offers.len(),
{
    if offers.len() == 0 {
        seq![]
    } else if offers.last().1 == SendOutcome::Sent {
        sent_pieces(offers.drop_last()).push(offers.last().0)
    } else {
        sent_pieces(offers.drop_last())
    }
}

/// All bytes that came from the channel, in order.
pub open spec fn output_of(replies: Seq<ChannelView>) -> Seq<u8>
    decreases replies.len(),
{
    if replies.len() == 0 {
        seq![]
    } else {
        output_of(replies.drop_last()) + match replies.last() {
            ChannelView::Chunk(bytes) => bytes,
            _ => seq![],
        }
    }
}

/// `SyncSender::try_send` puts the bytes into the channel as its last piece, or tells that it is
/// full or that nobody will receive from it, and then puts nothing there. Which it is depends on
/// the other end. The call is one offer more at this end.
#[verifier::external_body]
fn try_send(sender: &mut SyncSender<Vec<u8>>, bytes: Vec<u8>) -> (outcome: SendOutcome)
    ensures
        offers_made(*final(sender)) == offers_made(*old(sender)).push((bytes@, outcome)),
{
    match sender.try_send(bytes) {
        Ok(()) => SendOutcome::Sent,
        Err(TrySendError::Full(_)) => SendOutcome::Full,
        Err(TrySendError::Disconnected(_)) => SendOutcome::Disconnected,
    }
}

/// `Receiver::try_recv` takes what waits first in the channel, or tells that nothing waits or
/// that nothing will come any more; having told the latter, it does not tell anything else.
/// Which it is depends on the other end. The call is one reply more at this end.
#[verifier::external_body]
fn try_recv(receiver: &mut Receiver<Result<OutputPiece, AuthError>>) -> (event: ChannelEvent)
    ensures
        replies_given(*final(receiver)) == replies_given(*old(receiver)).push(event@),
        has_ended(replies_given(*old(receiver))) ==> event is Disconnected,
{
    match receiver.try_recv() {
        Ok(Ok(piece)) => ChannelEvent::Chunk(piece),
        Ok(Err(error)) => ChannelEvent::Failed(error),
        Err(TryRecvError::Empty) => ChannelEvent::Empty,
        Err(TryRecvError::Disconnected) => ChannelEvent::Disconnected,
    }
}

/// What a poll found.
pub struct AuthPoll {
    pub output: Vec<u8>,
    /// Latched status, reported only after all output has been drained.
    pub exit: Option<bool>,
}

pub struct PollView {
    pub output: Seq<u8>,
    pub exit: Option<bool>,
}

impl View for AuthPoll {
    type V = PollView;

    open spec fn view(&self) -> PollView {
        PollView { output: self.output@, exit: self.exit }
    }
}

pub open spec fn poll_view(result: Result<AuthPoll, AuthError>) -> Result<PollView, ErrorView> {
    match result {
        Ok(poll) => Ok(poll@),
        Err(error) => Err(error@),
    }
}

/// The channels to the program on the PTY, and what is known of its end.
pub struct SshAuthProcess {
    pub output: Option<Receiver<Result<OutputPiece, AuthError>>>,
    pub input: Option<SyncSender<Vec<u8>>>,
    pub output_done: bool,
    pub exit: Option<bool>,
    /// The error that ended the output, to be told by the next poll.
    pub failed: Option<AuthError>,
}

/// A process by what its open channels have seen.
#[verifier::ext_equal]
pub struct ProcessView {
    /// What was offered to the input, and what came of it.
    pub input: Option<Seq<(Seq<u8>, SendOutcome)>>,
    /// What the output replied.
    pub output: Option<Seq<ChannelView>>,
    pub output_done: bool,
    pub exit: Option<bool>,
    pub failed: Option<ErrorView>,
}

impl View for SshAuthProcess {
    type V = ProcessView;

    open spec fn view(&self) -> ProcessView {
        ProcessView {
            input: match self.input {
                Some(sender) => Some(offers_made(sender)),
                None => None,
            },
            output: match self.output {
                Some(receiver) => Some(replies_given(receiver)),
                None => None,
            },
            output_done: self.output_done,
            exit: self.exit,
            failed: match self.failed {
                Some(error) => Some(error@),
                None => None,
            },
        }
    }
}

pub open spec fn event_views(events: Seq<ChannelEvent>) -> Seq<ChannelView> {
    events.map_values(|event: ChannelEvent| event@)
}

/// The bytes of the chunks that come before anything else.
pub open spec fn gathered(events: Seq<ChannelView>) -> Seq<u8>
    decreases events.len(),
{
    if events.len() == 0 {
        seq![]
    } else {
        match events[0] {
            ChannelView::Chunk(bytes) => bytes + gathered(events.drop_first()),
            _ => seq![],
        }
    }
}

/// The first event that is no chunk.
pub open spec fn first_stop(events: Seq<ChannelView>) -> Option<ChannelView>
    decreases events.len(),
{
    if events.len() == 0 {
        None
    } else {
        match events[0] {
            ChannelView::Chunk(_) => first_stop(events.drop_first()),
            stop => Some(stop),
        }
    }
}

/// A chunk is no larger than what is read at once.
pub open spec fn is_bounded_event(event: ChannelView) -> bool {
    event matches ChannelView::Chunk(bytes) ==> bytes.len() <= CHUNK_BYTES
}

/// The events are what a poll takes from a channel that replied `before` so far: chunks up to the
/// limit, or up to the first event that is none. Once the channel has ended there is no chunk.
pub open spec fn is_drain(before: Seq<ChannelView>, events: Seq<ChannelView>) -> bool {
    &&& events.len() <= POLL_CHUNKS
    &&& forall|i: int| 0 <= i < events.len() - 1 ==> #[trigger] events[i] is Chunk
    &&& forall|i: int| 0 <= i < events.len() ==> is_bounded_event(#[trigger] events[i])
    &&& events.len() == POLL_CHUNKS || (events.len() > 0 && !(events.last() is Chunk))
    &&& has_ended(before) ==> events.len() > 0 && events[0] is Disconnected
}

/// What an attempt to write gives, where it comes to offering the bytes to the channel.
pub open spec fn send_result(outcome: SendOutcome) -> Result<(), ErrorView> {
    match outcome {
        SendOutcome::Sent => Ok(()),
        SendOutcome::Full => Err(
            ErrorView { kind: ErrorKind::WouldBlock, message: ErrorKind::WouldBlock.text() },
        ),
        SendOutcome::Disconnected => Err(broken_pipe()),
    }
}

pub open spec fn broken_pipe() -> ErrorView {
    ErrorView { kind: ErrorKind::BrokenPipe, message: ErrorKind::BrokenPipe.text() }
}

/// What an attempt to write `len` bytes gives without offering them to the channel, if it does
/// not come to that.
pub open spec fn write_refusal(len: nat, open: bool) -> Option<Result<(), ErrorView>> {
    if len == 0 {
        Some(Ok(()))
    } else if len > MAX_WRITE_BYTES {
        Some(
            Err(
                ErrorView {
                    kind: ErrorKind::WouldBlock,
                    message: "PTY input chunk too large"@,
                },
            ),
        )
    } else if !open {
        Some(Err(broken_pipe()))
    } else {
        None
    }
}

/// What came of offering bytes to the channel, as the result of the write.
pub fn sent(outcome: SendOutcome) -> (result: Result<(), AuthError>)
    ensures
        result_view(result) == send_result(outcome),
{
    match outcome {
        SendOutcome::Sent => Ok(()),
        SendOutcome::Full => Err(AuthError::from_kind(ErrorKind::WouldBlock)),
        SendOutcome::Disconnected => Err(AuthError::from_kind(ErrorKind::BrokenPipe)),
    }
}

impl ProcessView {
    /// The output is known to have ended only where its channel told so, and then no error is
    /// left to be told.
    pub open spec fn well_formed(self) -> bool {
        self.output_done ==> self.failed is None && (self.output matches Some(replies) ==> has_ended(
            replies,
        ))
    }

    /// All pieces that went into the input, in order.
    pub open spec fn pieces(self) -> Seq<Seq<u8>> {
        match self.input {
            Some(offers) => sent_pieces(offers),
            None => seq![],
        }
    }

    /// All bytes that were taken from the output, in order.
    pub open spec fn taken(self) -> Seq<u8> {
        match self.output {
            Some(replies) => output_of(replies),
            None => seq![],
        }
    }

    /// The process once `bytes` were offered to its input.
    pub open spec fn offered(self, bytes: Seq<u8>, outcome: SendOutcome) -> ProcessView {
        ProcessView { input: Some(self.input->0.push((bytes, outcome))), ..self }
    }

    /// Writing `bytes` to this process may leave `after` and return `result`: bytes that are
    /// refused outright are not offered at all, and any others once, as one piece.
    pub open spec fn wrote(
        self,
        bytes: Seq<u8>,
        after: ProcessView,
        result: Result<(), ErrorView>,
    ) -> bool {
        match write_refusal(bytes.len(), self.input is Some) {
            Some(refusal) => after == self && result == refusal,
            None => exists|outcome: SendOutcome|
                after == #[trigger] self.offered(bytes, outcome) && result == send_result(outcome),
        }
    }

    /// The process once `events` came from its output: an end is noted, and an error is kept to
    /// be told later if there is output to be told first.
    pub open spec fn settled(self, events: Seq<ChannelView>) -> ProcessView {
        ProcessView {
            output_done: self.output_done || first_stop(events) == Some(ChannelView::Disconnected),
            failed: match first_stop(events) {
                Some(ChannelView::Failed(error)) if gathered(events).len() > 0 => Some(error),
                _ => self.failed,
            },
            ..self
        }
    }

    /// What a poll returns that took `events` from the output.
    pub open spec fn poll_result(self, events: Seq<ChannelView>) -> Result<PollView, ErrorView> {
        match first_stop(events) {
            Some(ChannelView::Failed(error)) => if gathered(events).len() == 0 {
                Err(error)
            } else {
                Ok(PollView { output: gathered(events), exit: None })
            },
            _ => Ok(
                PollView {
                    output: gathered(events),
                    exit: if self.settled(events).output_done {
                        self.exit
                    } else {
                        None
                    },
                },
            ),
        }
    }

    /// The process once its program was asked for its status.
    pub open spec fn latched(self, status: Option<bool>) -> ProcessView {
        if self.exit is None {
            ProcessView { exit: status, ..self }
        } else {
            self
        }
    }

    /// The process once its output replied `events`.
    pub open spec fn replied(self, events: Seq<ChannelView>) -> ProcessView {
        ProcessView { output: Some(self.output->0 + events), ..self }
    }

    /// A poll of this process may leave `after` and return `result`.
    pub open spec fn polled(
        self,
        waited: Result<Option<bool>, ErrorView>,
        after: ProcessView,
        result: Result<PollView, ErrorView>,
    ) -> bool {
        let asked = self.latched(if waited is Ok { waited->Ok_0 } else { None });
        if self.exit is None && waited is Err {
            after == self && result == Err::<PollView, ErrorView>(waited->Err_0)
        } else if self.failed is Some {
            &&& after == (ProcessView { failed: None, ..asked })
            &&& result == Err::<PollView, ErrorView>(self.failed->0)
        } else {
            match self.output {
                Some(before) => exists|events: Seq<ChannelView>| #[trigger]
                    is_drain(before, events) && after == asked.replied(events).settled(events)
                        && result == asked.poll_result(events),
                None => after == asked && result == asked.poll_result(seq![]),
            }
        }
    }
}

/// Takes what waits in the channel, up to what one poll takes.
fn drain(receiver: &mut Receiver<Result<OutputPiece, AuthError>>) -> (events: Vec<ChannelEvent>)
    ensures
        is_drain(replies_given(*old(receiver)), event_views(events@)),
        replies_given(*final(receiver)) == replies_given(*old(receiver)) + event_views(events@),
{
    let ghost before = replies_given(*receiver);
    let mut events: Vec<ChannelEvent> = Vec::new();
    let mut stopped: bool = false;
    assert(before + event_views(events@) =~= before);
    while events.len() < POLL_CHUNKS && !stopped
        invariant
            before == replies_given(*old(receiver)),
            events.len() <= POLL_CHUNKS,
            replies_given(*receiver) == before + event_views(events@),
            forall|i: int| 0 <= i < events.len() - 1 ==> #[trigger] event_views(events@)[i] is Chunk,
            forall|i: int|
                0 <= i < events.len() ==> is_bounded_event(#[trigger] event_views(events@)[i]),
            stopped == (events.len() > 0 && !(event_views(events@).last() is Chunk)),
            has_ended(before) && events.len() > 0 ==> event_views(events@)[0] is Disconnected,
        decreases POLL_CHUNKS - events.len(),
    {
        let ghost seen = event_views(events@);
        let event = try_recv(receiver);
        stopped = match &event {
            ChannelEvent::Chunk(piece) => {
                proof {
                    use_type_invariant(piece);
                }
                false
            },
            _ => true,
        };
        let ghost this = event@;
        assert(is_bounded_event(this));
        proof {
            if events.len() == 0 {
                assert(before + seen =~= before);
            }
        }
        events.push(event);
        assert(event_views(events@) =~= seen.push(this));
        assert(replies_given(*receiver) =~= before + event_views(events@));
    }
    events
}

impl SshAuthProcess {
    /// The process at its start: output comes from `output`, input goes to `input`.
    pub fn new(
        output: Receiver<Result<OutputPiece, AuthError>>,
        input: SyncSender<Vec<u8>>,
    ) -> (process: SshAuthProcess)
        ensures
            process == (SshAuthProcess {
                output: Some(output),
                input: Some(input),
                output_done: false,
                exit: None,
                failed: None,
            }),
            process@.well_formed(),
    {
        SshAuthProcess {
            output: Some(output),
            input: Some(input),
            output_done: false,
            exit: None,
            failed: None,
        }
    }

    /// Enqueues all bytes or none. Oversized chunks and a full queue return WouldBlock; split
    /// pastes into chunks of at most 4096 bytes before calling.
    pub fn write(&mut self, bytes: &[u8]) -> (result: Result<(), AuthError>)
        ensures
            *final(self) == (SshAuthProcess { input: final(self).input, ..*old(self) }),
            old(self)@.wrote(bytes@, final(self)@, result_view(result)),
            final(self)@.pieces() == if result is Ok && bytes@.len() > 0 {
                old(self)@.pieces().push(bytes@)
            } else {
                old(self)@.pieces()
            },
    {
        if bytes.is_empty() {
            return Ok(());
        }
        if bytes.len() > MAX_WRITE_BYTES {
            return Err(AuthError::new(ErrorKind::WouldBlock, "PTY input chunk too large"));
        }
        match &mut self.input {
            None => Err(AuthError::from_kind(ErrorKind::BrokenPipe)),
            Some(input) => {
                let ghost offers = offers_made(*input);
                let chunk = vstd::slice::slice_to_vec(bytes);
                let outcome = try_send(input, chunk);
                proof {
                    assert(offers.push((bytes@, outcome)).drop_last() =~= offers);
                    assert(offers_made(*input) == old(self)@.offered(bytes@, outcome).input->0);
                }
                sent(outcome)
            },
        }
    }

    /// Whether the program has to be asked for its status: it is, until it has ended.
    pub fn wants_status(&self) -> (wanted: bool)
        ensures
            wanted == (self.exit is None),
    {
        self.exit.is_none()
    }

    /// Puts what came from the output together. Output that came before an error is told first,
    /// and the error kept.
    pub fn settle(&mut self, events: &Vec<ChannelEvent>) -> (result: Result<AuthPoll, AuthError>)
        ensures
            *final(self) == (SshAuthProcess {
                output_done: final(self).output_done,
                failed: final(self).failed,
                ..*old(self)
            }),
            final(self)@ == old(self)@.settled(event_views(events@)),
            poll_view(result) == old(self)@.poll_result(event_views(events@)),
    {
        let mut output: Vec<u8> = Vec::new();
        let mut i: usize = 0;
        let ghost all = event_views(events@);
        assert(all.skip(0) =~= all);
        assert(output@ + gathered(all) =~= gathered(all));
        while i < events.len()
            invariant
                i <= events.len(),
                all == event_views(events@),
                *self == *old(self),
                output@ + gathered(all.skip(i as int)) == gathered(all),
                first_stop(all.skip(i as int)) == first_stop(all),
            decreases events.len() - i,
        {
            let ghost rest = all.skip(i as int);
            assert(rest[0] == events@[i as int]@);
            assert(rest.drop_first() =~= all.skip(i + 1));
            match &events[i] {
                ChannelEvent::Chunk(piece) => {
                    let bytes = piece.bytes();
                    let mut chunk = bytes.clone();
                    assert(chunk@ =~= bytes@);
                    let ghost before = output@;
                    output.append(&mut chunk);
                    assert(before + (bytes@ + gathered(rest.drop_first())) =~= output@ + gathered(
                        rest.drop_first(),
                    ));
                },
                ChannelEvent::Failed(error) => {
                    assert(output@ + seq![] =~= output@);
                    if output.is_empty() {
                        return Err(error.clone());
                    }
                    self.failed = Some(error.clone());
                    return Ok(AuthPoll { output, exit: None });
                },
                ChannelEvent::Empty => {
                    assert(output@ + seq![] =~= output@);
                    let exit = if self.output_done { self.exit } else { None };
                    return Ok(AuthPoll { output, exit });
                },
                ChannelEvent::Disconnected => {
                    assert(output@ + seq![] =~= output@);
                    self.output_done = true;
                    return Ok(AuthPoll { output, exit: self.exit });
                },
            }
            i += 1;
        }
        assert(output@ + gathered(all.skip(i as int)) =~= output@);
        let exit = if self.output_done { self.exit } else { None };
        Ok(AuthPoll { output, exit })
    }

    /// Nonblocking; consumes at most 64 KiB per call without dropping output. `waited` is the
    /// status of the program: whether it succeeded, once it has ended. It counts only while the
    /// status is wanted. An error that ends the output is told once the output before it was.
    pub fn poll(&mut self, waited: Result<Option<bool>, AuthError>) -> (result: Result<
        AuthPoll,
        AuthError,
    >)
        ensures
            final(self).input == old(self).input,
            old(self)@.polled(result_view(waited), final(self)@, poll_view(result)),
            result matches Ok(poll) ==> poll.output@.len() <= POLL_BYTES,
    {
        if self.exit.is_none() {
            match waited {
                Ok(status) => {
                    self.exit = status;
                },
                Err(error) => {
                    return Err(error);
                },
            }
        }
        if let Some(error) = self.failed.take() {
            return Err(error);
        }
        let ghost asked = self@;
        let events = match &mut self.output {
            Some(receiver) => drain(receiver),
            None => Vec::new(),
        };
        let ghost drained = event_views(events@);
        proof {
            if self.output is None {
                assert(drained =~= seq![]);
                assert(asked.settled(seq![]) == asked);
            } else {
                assert(is_drain(asked.output->0, drained));
                assert(self@ == asked.replied(drained));
                lemma_gathered_bounded(drained);
            }
        }
        self.settle(&events)
    }

    /// Closes both channels: no more output is taken, and no more input.
    pub fn shutdown(&mut self)
        ensures
            *final(self) == (SshAuthProcess { output: None, input: None, ..*old(self) }),
    {
        self.output = None;
        self.input = None;
    }
}

/// Tells whether the program has to be killed: unless it is known to have ended.
pub fn must_kill(waited: &Result<Option<bool>, AuthError>) -> (kill: bool)
    ensures
        kill == !(waited matches Ok(Some(_))),
{
    match waited {
        Ok(Some(_)) => false,
        _ => true,
    }
}

/// A poll keeps a process valid.
pub proof fn law_poll_keeps_valid(
    process: ProcessView,
    waited: Result<Option<bool>, ErrorView>,
    after: ProcessView,
    result: Result<PollView, ErrorView>,
)
    requires
        process.well_formed(),
        process.polled(waited, after, result),
    ensures
        after.well_formed(),
{
    if after.output_done && process.output is Some && !(process.exit is None && waited is Err)
        && process.failed is None {
        let events = lemma_drain(process, waited, after, result);
        let replies = after.output->0;
        if process.output_done {
            let i = choose|i: int|
                0 <= i < process.output->0.len() && process.output->0[i]
                    == ChannelView::Disconnected;
            assert(replies[i] == ChannelView::Disconnected);
        } else {
            lemma_stop_is_last(events);
            assert(replies.last() == ChannelView::Disconnected);
        }
    }
}

/// What a poll took from the output, where it came to that.
proof fn lemma_drain(
    process: ProcessView,
    waited: Result<Option<bool>, ErrorView>,
    after: ProcessView,
    result: Result<PollView, ErrorView>,
) -> (events: Seq<ChannelView>)
    requires
        process.polled(waited, after, result),
        process.output is Some,
        !(process.exit is None && waited is Err),
        process.failed is None,
    ensures
        is_drain(process.output->0, events),
        after == process.latched(if waited is Ok { waited->Ok_0 } else { None }).replied(
            events,
        ).settled(events),
        result == process.latched(if waited is Ok { waited->Ok_0 } else { None }).poll_result(
            events,
        ),
{
    let asked = process.latched(if waited is Ok { waited->Ok_0 } else { None });
    choose|events: Seq<ChannelView>| #[trigger]
        is_drain(process.output->0, events) && after == asked.replied(events).settled(events)
            && result == asked.poll_result(events)
}

/// Where only the last event may be no chunk, the first one that is none is the last one, and all
/// chunks are gathered.
proof fn lemma_stop_is_last(events: Seq<ChannelView>)
    requires
        forall|i: int| 0 <= i < events.len() - 1 ==> #[trigger] events[i] is Chunk,
    ensures
        first_stop(events) == if events.len() > 0 && !(events.last() is Chunk) {
            Some(events.last())
        } else {
            None
        },
        gathered(events) == output_of(events),
    decreases events.len(),
{
    if events.len() > 0 {
        let rest = events.drop_first();
        assert forall|i: int| 0 <= i < rest.len() - 1 implies #[trigger] rest[i] is Chunk by {
            assert(rest[i] == events[i + 1]);
        }
        lemma_stop_is_last(rest);
        lemma_output_of_joined(seq![events[0]], rest);
        assert(seq![events[0]] + rest =~= events);
        assert(seq![events[0]].drop_last() =~= seq![]);
        assert(output_of(seq![events[0]].drop_last()) =~= seq![]);
        if rest.len() == 0 {
            assert(events.last() == events[0]);
            assert(output_of(rest) =~= seq![]);
        } else {
            assert(events[0] is Chunk);
            assert(rest.last() == events.last());
        }
        assert(gathered(events) =~= output_of(events));
    }
}

proof fn lemma_output_of_joined(first: Seq<ChannelView>, second: Seq<ChannelView>)
    ensures
        output_of(first + second) == output_of(first) + output_of(second),
    decreases second.len(),
{
    if second.len() == 0 {
        assert(first + second =~= first);
        assert(output_of(first) + output_of(second) =~= output_of(first));
    } else {
        lemma_output_of_joined(first, second.drop_last());
        assert((first + second).drop_last() =~= first + second.drop_last());
        assert((first + second).last() == second.last());
        assert(output_of(first + second) =~= output_of(first) + output_of(second));
    }
}

/// The output that a poll returned: none with an error.
pub open spec fn output_told(result: Result<PollView, ErrorView>) -> Seq<u8> {
    match result {
        Ok(poll) => poll.output,
        Err(_) => seq![],
    }
}

/// A poll returns all that it takes from the output, in order, and nothing else: no output is
/// dropped, not even with an error.
pub proof fn law_no_output_dropped(
    process: ProcessView,
    waited: Result<Option<bool>, ErrorView>,
    after: ProcessView,
    result: Result<PollView, ErrorView>,
)
    requires
        process.polled(waited, after, result),
    ensures
        after.taken() == process.taken() + output_told(result),
{
    assert(process.taken() + Seq::<u8>::empty() =~= process.taken());
    if !(process.exit is None && waited is Err) && process.failed is None {
        if process.output is Some {
            let events = lemma_drain(process, waited, after, result);
            lemma_stop_is_last(events);
            lemma_output_of_joined(process.output->0, events);
            assert(output_told(result) =~= gathered(events));
        } else {
            assert(output_told(result) =~= seq![]);
        }
    }
}

/// One poll gives at most `POLL_BYTES` bytes.
pub proof fn law_poll_bounded(
    process: ProcessView,
    waited: Result<Option<bool>, ErrorView>,
    after: ProcessView,
    result: Result<PollView, ErrorView>,
)
    requires
        process.polled(waited, after, result),
    ensures
        output_told(result).len() <= POLL_BYTES,
{
    if process.output is Some && !(process.exit is None && waited is Err) && process.failed
        is None {
        let events = lemma_drain(process, waited, after, result);
        lemma_gathered_bounded(events);
    }
}

proof fn lemma_gathered_bounded(events: Seq<ChannelView>)
    requires
        forall|i: int| 0 <= i < events.len() ==> is_bounded_event(#[trigger] events[i]),
    ensures
        gathered(events).len() <= CHUNK_BYTES * events.len(),
    decreases events.len(),
{
    if events.len() > 0 {
        let rest = events.drop_first();
        assert forall|i: int| 0 <= i < rest.len() implies is_bounded_event(
            #[trigger] rest[i],
        ) by {
            assert(rest[i] == events[i + 1]);
        }
        lemma_gathered_bounded(rest);
        assert(is_bounded_event(events[0]));
    }
}

/// An error that ends the output is told by the poll that takes it, or kept.
pub proof fn law_failure_told_or_kept(
    process: ProcessView,
    waited: Result<Option<bool>, ErrorView>,
    after: ProcessView,
    result: Result<PollView, ErrorView>,
    error: ErrorView,
)
    requires
        process.polled(waited, after, result),
        process.output matches Some(before) && after.output matches Some(now) && now.len()
            > before.len() && now.last() == ChannelView::Failed(error),
    ensures
        result == Err::<PollView, ErrorView>(error) || after.failed == Some(error),
{
    let events = lemma_drain(process, waited, after, result);
    lemma_stop_is_last(events);
    assert(events.last() == after.output->0.last());
}

/// An error that was kept is what the next poll returns, once it has the program's status.
pub proof fn law_kept_failure_is_told(
    process: ProcessView,
    waited: Result<Option<bool>, ErrorView>,
    after: ProcessView,
    result: Result<PollView, ErrorView>,
)
    requires
        process.polled(waited, after, result),
        process.failed is Some,
        process.exit is Some || waited is Ok,
    ensures
        result == Err::<PollView, ErrorView>(process.failed->0),
        after.failed is None,
        after.output == process.output,
{
}

/// How the program ended is told only once the output has come to its end, and it is what was
/// latched.
pub proof fn law_exit_after_output(
    process: ProcessView,
    waited: Result<Option<bool>, ErrorView>,
    after: ProcessView,
    result: Result<PollView, ErrorView>,
)
    requires
        process.well_formed(),
        process.polled(waited, after, result),
        result matches Ok(poll) && poll.exit is Some,
    ensures
        after.output_done,
        after.output matches Some(replies) ==> has_ended(replies),
        result->Ok_0.exit == after.exit,
{
    law_poll_keeps_valid(process, waited, after, result);
    if process.output is Some {
        let events = lemma_drain(process, waited, after, result);
    }
}

/// Once the program has ended, no poll changes how.
pub proof fn law_exit_latched(
    process: ProcessView,
    waited: Result<Option<bool>, ErrorView>,
    after: ProcessView,
    result: Result<PollView, ErrorView>,
)
    requires
        process.polled(waited, after, result),
        process.exit is Some,
    ensures
        after.exit == process.exit,
{
}

/// Once both the output and the program have ended, a poll finds no more output, and tells the
/// same end.
pub proof fn law_nothing_after_end(
    process: ProcessView,
    waited: Result<Option<bool>, ErrorView>,
    after: ProcessView,
    result: Result<PollView, ErrorView>,
)
    requires
        process.well_formed(),
        process.output_done,
        process.exit is Some,
        process.polled(waited, after, result),
    ensures
        result matches Ok(poll) && poll.output.len() == 0 && poll.exit == process.exit,
        after.output_done,
        after.exit == process.exit,
{
    if process.output is Some {
        let events = lemma_drain(process, waited, after, result);
        assert(events[0] is Disconnected);
    }
}

/// One poll of a process, with what it started from and what it left.
pub struct PollRecord {
    pub before: ProcessView,
    pub waited: Result<Option<bool>, ErrorView>,
    pub after: ProcessView,
    pub result: Result<PollView, ErrorView>,
}

/// The polls follow each other on one process, which is only written to in between.
pub open spec fn is_run(polls: Seq<PollRecord>) -> bool {
    &&& forall|i: int|
        0 <= i < polls.len() ==> (#[trigger] polls[i]).before.polled(
            polls[i].waited,
            polls[i].after,
            polls[i].result,
        )
    &&& forall|i: int, j: int|
        #![trigger polls[i], polls[j]]
        0 <= i < polls.len() && j == i + 1 && j < polls.len() ==> polls[j].before == (ProcessView {
            input: polls[j].before.input,
            ..polls[i].after
        })
}

/// The output that the polls returned, one after the other.
pub open spec fn outputs_told(polls: Seq<PollRecord>) -> Seq<u8>
    decreases polls.len(),
{
    if polls.len() == 0 {
        seq![]
    } else {
        outputs_told(polls.drop_last()) + output_told(polls.last().result)
    }
}

/// Over any run of polls the outputs, one after the other, are all that was taken from the
/// channel in the meantime, and none of them is larger than one poll takes.
pub proof fn law_run_drops_nothing(polls: Seq<PollRecord>)
    requires
        is_run(polls),
        polls.len() > 0,
    ensures
        polls.last().after.taken() == polls[0].before.taken() + outputs_told(polls),
        forall|i: int|
            0 <= i < polls.len() ==> output_told((#[trigger] polls[i]).result).len() <= POLL_BYTES,
    decreases polls.len(),
{
    let earlier = polls.drop_last();
    let last = polls[polls.len() - 1];
    assert forall|i: int| 0 <= i < polls.len() implies output_told(
        (#[trigger] polls[i]).result,
    ).len() <= POLL_BYTES by {
        let poll = polls[i];
        law_poll_bounded(poll.before, poll.waited, poll.after, poll.result);
    }
    law_no_output_dropped(last.before, last.waited, last.after, last.result);
    if earlier.len() == 0 {
        assert(outputs_told(earlier) =~= seq![]);
        assert(outputs_told(polls) =~= output_told(last.result));
    } else {
        assert forall|i: int| 0 <= i < earlier.len() implies (
        #[trigger] earlier[i]).before.polled(
            earlier[i].waited,
            earlier[i].after,
            earlier[i].result,
        ) by {
            assert(earlier[i] == polls[i]);
        }
        assert(is_run(earlier)) by {
            assert forall|i: int, j: int|
                #![trigger earlier[i], earlier[j]]
                0 <= i < earlier.len() && j == i + 1 && j < earlier.len() implies earlier[j].before
                    == (ProcessView { input: earlier[j].before.input, ..earlier[i].after }) by {
                assert(earlier[i] == polls[i] && earlier[j] == polls[j]);
            }
        }
        law_run_drops_nothing(earlier);
        assert(earlier.last() == polls[polls.len() - 2]);
        assert(last.before.taken() == earlier.last().after.taken());
        assert(polls[0].before.taken() + outputs_told(earlier) + output_told(last.result)
            =~= polls[0].before.taken() + outputs_told(polls));
    }
}

/// In a run of polls, after one that tells how the program ended, each one gives no output and
/// tells the same.
pub proof fn law_run_ends_once(polls: Seq<PollRecord>, i: int, j: int)
    requires
        is_run(polls),
        0 <= i < j < polls.len(),
        polls[0].before.well_formed(),
        polls[i].result matches Ok(poll) && poll.exit is Some,
    ensures
        polls[j].result matches Ok(poll) && poll.output.len() == 0 && poll.exit
            == polls[i].result->Ok_0.exit,
        polls[j].after.well_formed() && polls[j].after.output_done,
        polls[j].after.exit == polls[i].result->Ok_0.exit,
    decreases j,
{
    let poll = polls[j];
    let previous = polls[j - 1];
    if j - 1 > i {
        law_run_ends_once(polls, i, j - 1);
    } else {
        lemma_run_valid(polls, i);
        law_exit_after_output(
            previous.before,
            previous.waited,
            previous.after,
            previous.result,
        );
        law_poll_keeps_valid(
            previous.before,
            previous.waited,
            previous.after,
            previous.result,
        );
    }
    assert(poll.before.polled(poll.waited, poll.after, poll.result));
    law_nothing_after_end(poll.before, poll.waited, poll.after, poll.result);
    law_poll_keeps_valid(poll.before, poll.waited, poll.after, poll.result);
}

/// In a run of polls, how the program ended is told only once the channel has ended, so that all
/// output was returned by then, and it is what the program's status said in one of the polls.
pub proof fn law_run_tells_status(polls: Seq<PollRecord>, i: int)
    requires
        is_run(polls),
        0 <= i < polls.len(),
        polls[0].before.well_formed(),
        polls[0].before.exit is None,
        polls[i].result matches Ok(poll) && poll.exit is Some,
    ensures
        polls[i].after.output matches Some(replies) ==> has_ended(replies),
        exists|k: int|
            0 <= k <= i && (#[trigger] polls[k]).waited == Ok::<Option<bool>, ErrorView>(
                polls[i].result->Ok_0.exit,
            ),
{
    let poll = polls[i];
    lemma_run_valid(polls, i);
    law_exit_after_output(poll.before, poll.waited, poll.after, poll.result);
    lemma_run_status(polls, i);
}

proof fn lemma_run_status(polls: Seq<PollRecord>, i: int)
    requires
        is_run(polls),
        0 <= i < polls.len(),
        polls[0].before.exit is None,
        polls[i].after.exit is Some,
    ensures
        exists|k: int|
            0 <= k <= i && (#[trigger] polls[k]).waited == Ok::<Option<bool>, ErrorView>(
                polls[i].after.exit,
            ),
    decreases i,
{
    let poll = polls[i];
    assert(poll.before.polled(poll.waited, poll.after, poll.result));
    if poll.before.exit is Some {
        assert(polls[i - 1].after.exit == poll.before.exit);
        lemma_run_status(polls, i - 1);
    } else {
        assert(polls[i].waited == Ok::<Option<bool>, ErrorView>(poll.after.exit));
    }
}

proof fn lemma_run_valid(polls: Seq<PollRecord>, i: int)
    requires
        is_run(polls),
        0 <= i < polls.len(),
        polls[0].before.well_formed(),
    ensures
        polls[i].before.well_formed(),
    decreases i,
{
    if i > 0 {
        lemma_run_valid(polls, i - 1);
        let previous = polls[i - 1];
        law_poll_keeps_valid(
            previous.before,
            previous.waited,
            previous.after,
            previous.result,
        );
        assert(polls[i].before.output_done == previous.after.output_done);
    }
}

/// A write either puts all its bytes into the channel, once and as its last piece, or none of
/// them: those of a write that returns an error are not there, nor is any part of them.
pub proof fn law_write_all_or_nothing(
    process: ProcessView,
    bytes: Seq<u8>,
    after: ProcessView,
    result: Result<(), ErrorView>,
)
    requires
        process.wrote(bytes, after, result),
    ensures
        result is Ok && bytes.len() > 0 ==> bytes.len() <= MAX_WRITE_BYTES && process.input is Some
            && after.pieces() == process.pieces().push(bytes),
        result is Err || bytes.len() == 0 ==> after.pieces() == process.pieces(),
        bytes.len() > MAX_WRITE_BYTES ==> (result matches Err(error) && error.kind
            == ErrorKind::WouldBlock),
        after == (ProcessView { input: after.input, ..process }),
{
    if write_refusal(bytes.len(), process.input is Some) is None {
        let outcome = choose|outcome: SendOutcome|
            after == #[trigger] process.offered(bytes, outcome) && result == send_result(outcome);
        let offers = process.input->0;
        assert(offers.push((bytes, outcome)).drop_last() =~= offers);
    }
}

} // verus!
