use auth_client::error::{AuthError, ErrorKind};
use auth_client::ssh_auth::{
    are_apart, must_kill, pty_error, reader_goes_on, reader_step, sent, size, AuthCommand, ChannelEvent,
    OutputPiece, PtySize, ReadOutcome, ReaderStep, SendOutcome, SshAuthProcess, ASKPASS_VARIABLE,
    CHUNK_BYTES, INPUT_CHUNKS, MAX_WRITE_BYTES, OUTPUT_CHUNKS, POLL_BYTES, POLL_CHUNKS,
};
use portable_pty::{native_pty_system, Child, MasterPty};
use std::io::{ErrorKind as IoErrorKind, Read, Write};
use std::sync::mpsc::{sync_channel, Receiver, SyncSender};
use std::time::{Duration, Instant};

type OutputEnd = SyncSender<Result<OutputPiece, AuthError>>;

fn piece(bytes: &[u8]) -> OutputPiece {
    OutputPiece::new(bytes.to_vec()).unwrap()
}

fn sh(script: &str) -> AuthCommand {
    AuthCommand {
        program: "/bin/sh".to_string(),
        args: vec!["-c".to_string(), script.to_string()],
        cwd: None,
        envs: vec![],
    }
}

fn library_size(size: PtySize) -> portable_pty::PtySize {
    portable_pty::PtySize {
        rows: size.rows,
        cols: size.cols,
        pixel_width: size.pixel_width,
        pixel_height: size.pixel_height,
    }
}

/// A program on a PTY. Its output is read on demand, and its input written likewise.
struct Program {
    master: Box<dyn MasterPty + Send>,
    child: Box<dyn Child + Send + Sync>,
    reader: Box<dyn Read + Send>,
    writer: Box<dyn Write + Send>,
    output: Option<OutputEnd>,
    input: Receiver<Vec<u8>>,
    process: SshAuthProcess,
}

fn spawn(command: &AuthCommand, cols: u16, rows: u16) -> Program {
    let pair = native_pty_system()
        .openpty(library_size(size(cols, rows)))
        .unwrap();
    let reader = pair.master.try_clone_reader().unwrap();
    let writer = pair.master.take_writer().unwrap();
    let child = pair.slave.spawn_command(command.describe()).unwrap();
    drop(pair.slave);
    let (output_tx, output_rx) = sync_channel(OUTPUT_CHUNKS);
    let (input_tx, input_rx) = sync_channel(INPUT_CHUNKS);
    Program {
        master: pair.master,
        child,
        reader,
        writer,
        output: Some(output_tx),
        input: input_rx,
        process: SshAuthProcess::new(output_rx, input_tx),
    }
}

impl Program {
    fn write_input(&mut self) {
        while let Ok(bytes) = self.input.try_recv() {
            self.writer.write_all(&bytes).unwrap();
        }
    }

    fn read_output(&mut self) {
        let Some(output) = &self.output else {
            return;
        };
        let mut buffer = [0; CHUNK_BYTES];
        let outcome = match self.reader.read(&mut buffer) {
            Ok(count) => ReadOutcome::Read(count),
            Err(error) if error.kind() == IoErrorKind::Interrupted => {
                ReadOutcome::Failed(AuthError::from_kind(ErrorKind::Interrupted))
            }
            Err(error) => ReadOutcome::Failed(pty_error(error.to_string())),
        };
        match reader_step(outcome, &buffer) {
            ReaderStep::Stop => self.output = None,
            ReaderStep::Retry => {}
            ReaderStep::Pass(message) => {
                let failed = message.is_err();
                if !reader_goes_on(failed, output.send(message).is_ok()) {
                    self.output = None;
                }
            }
        }
    }
}

fn finish(program: &mut Program) -> (Vec<u8>, bool) {
    let deadline = Instant::now() + Duration::from_secs(5);
    let mut output = Vec::new();
    loop {
        program.write_input();
        program.read_output();
        let waited = program.child.try_wait().unwrap();
        let poll = program
            .process
            .poll(Ok(waited.map(|status| status.success())))
            .unwrap();
        assert!(poll.output.len() <= POLL_BYTES);
        output.extend(poll.output);
        if let Some(success) = poll.exit {
            return (output, success);
        }
        assert!(Instant::now() < deadline, "PTY did not finish");
    }
}

#[test]
fn buffers_output_before_reporting_exit() {
    let mut program = spawn(
        &sh("i=0; while [ $i -lt 20000 ]; do printf abcdefgh; i=$((i+1)); done"),
        80,
        24,
    );
    let (output, success) = finish(&mut program);
    assert!(success);
    assert_eq!(output, b"abcdefgh".repeat(20000));
}

#[test]
fn forces_terminal_auth_and_reports_failure() {
    let mut command = sh("printf '%s' \"$SSH_ASKPASS_REQUIRE\"; exit 7");
    command.envs.push((
        "SSH_ASKPASS_REQUIRE".to_string(),
        Some("force".to_string()),
    ));
    let mut program = spawn(&command, 80, 24);
    let (output, success) = finish(&mut program);
    assert_eq!(output, b"never");
    assert!(!success);
}

#[test]
fn writes_and_resizes() {
    let mut program = spawn(&sh("read line; printf 'received:%s' \"$line\""), 80, 24);
    program.master.resize(library_size(size(100, 30))).unwrap();
    program.process.write(b"hello\n").unwrap();
    let (output, success) = finish(&mut program);
    assert!(success);
    assert!(output.windows(14).any(|s| s == b"received:hello"));
}

#[test]
fn drop_reaps_owned_child_even_with_full_output_queue() {
    let mut program = spawn(&sh("while :; do printf abcdefgh; done"), 80, 24);
    for _ in 0..OUTPUT_CHUNKS {
        program.read_output();
    }
    let full = program.output.as_ref().unwrap().try_send(Ok(piece(b"")));
    assert!(full.is_err());
    program.process.shutdown();
    let waited = program.child.try_wait().unwrap();
    if must_kill(&Ok(waited.map(|status| status.success()))) {
        program.child.kill().unwrap();
    }
    program.child.wait().unwrap();
    assert!(program.child.try_wait().unwrap().is_some());
    assert!(program.process.output.is_none());
    assert!(program.process.input.is_none());
    // The reader finds that nobody takes the output any more.
    program.read_output();
    assert!(program.output.is_none());
}

#[test]
fn a_pty_has_a_cell_at_least() {
    assert_eq!(
        size(0, 0),
        PtySize {
            rows: 1,
            cols: 1,
            pixel_width: 0,
            pixel_height: 0
        }
    );
    assert_eq!((size(100, 30).cols, size(100, 30).rows), (100, 30));
}

#[test]
fn errors_of_a_pty_keep_their_words() {
    assert_eq!(
        pty_error("no pty".to_string()),
        AuthError::new(ErrorKind::Other, "no pty")
    );
}

#[test]
fn errors_of_a_kind_say_what_std_says() {
    for (kind, there) in [
        (ErrorKind::WouldBlock, IoErrorKind::WouldBlock),
        (ErrorKind::TimedOut, IoErrorKind::TimedOut),
        (ErrorKind::BrokenPipe, IoErrorKind::BrokenPipe),
        (ErrorKind::Interrupted, IoErrorKind::Interrupted),
        (ErrorKind::Other, IoErrorKind::Other),
    ] {
        let error = AuthError::from_kind(kind);
        assert_eq!(error.kind, kind);
        assert_eq!(error.message, std::io::Error::from(there).to_string());
    }
}

#[test]
fn a_command_is_described_literally() {
    let command = AuthCommand {
        program: "ssh".to_string(),
        args: vec!["-o".to_string(), "a b; $(c)".to_string(), String::new()],
        cwd: Some("/tmp".to_string()),
        envs: vec![
            ("ONE".to_string(), Some("1".to_string())),
            ("TWO".to_string(), Some("2".to_string())),
            ("ONE".to_string(), Some("one".to_string())),
            ("TWO".to_string(), None),
            ("PATH".to_string(), None),
            ("THREE".to_string(), None),
            ("THREE".to_string(), Some("3=3".to_string())),
        ],
    };
    let described = command.describe();
    let argv: Vec<&str> = described
        .get_argv()
        .iter()
        .map(|arg| arg.to_str().unwrap())
        .collect();
    assert_eq!(argv, ["ssh", "-o", "a b; $(c)", ""]);
    assert_eq!(described.get_cwd().unwrap().to_str(), Some("/tmp"));
    let env = |name: &str| described.get_env(name).map(|value| value.to_str().unwrap());
    assert_eq!(env("ONE"), Some("one"));
    assert_eq!(env("TWO"), None);
    assert_eq!(env("PATH"), None);
    assert_eq!(env("THREE"), Some("3=3"));
    assert_eq!(env(ASKPASS_VARIABLE), Some("never"));
}

#[test]
fn a_bare_command_inherits_the_environment() {
    let mut command = sh("true");
    command.args.clear();
    command.envs.push((ASKPASS_VARIABLE.to_string(), None));
    let described = command.describe();
    assert_eq!(described.get_argv().len(), 1);
    assert!(described.get_cwd().is_none());
    let env = |name: &str| described.get_env(name).map(|value| value.to_str().unwrap());
    // Taking the variable away does not change where ssh asks.
    assert_eq!(env(ASKPASS_VARIABLE), Some("never"));
    let plain = portable_pty::CommandBuilder::new("/bin/sh");
    assert_eq!(described.get_env("PATH"), plain.get_env("PATH"));
}

#[test]
fn the_reader_passes_on_what_it_read() {
    let buffer = *b"abcdef";
    assert!(matches!(
        reader_step(ReadOutcome::Read(0), &buffer),
        ReaderStep::Stop
    ));
    for count in [1, 4, 6] {
        let ReaderStep::Pass(Ok(read)) = reader_step(ReadOutcome::Read(count), &buffer) else {
            panic!("nothing passed on")
        };
        assert_eq!(*read.bytes(), buffer[..count]);
    }
    let interrupted = AuthError::from_kind(ErrorKind::Interrupted);
    assert!(matches!(
        reader_step(ReadOutcome::Failed(interrupted), &buffer),
        ReaderStep::Retry
    ));
    for kind in [ErrorKind::Other, ErrorKind::WouldBlock, ErrorKind::TimedOut] {
        let failed = ReadOutcome::Failed(AuthError::new(kind, "read failed"));
        let ReaderStep::Pass(Err(error)) = reader_step(failed, &buffer) else {
            panic!("no error passed on")
        };
        assert_eq!(error, AuthError::new(kind, "read failed"));
    }
}

#[test]
fn the_reader_stops_after_an_error_and_when_nobody_listens() {
    assert!(reader_goes_on(false, true));
    assert!(!reader_goes_on(true, true));
    assert!(!reader_goes_on(false, false));
    assert!(!reader_goes_on(true, false));
}

fn channels(input_chunks: usize) -> (SshAuthProcess, OutputEnd, Receiver<Vec<u8>>) {
    let (output_tx, output_rx) = sync_channel(100);
    let (input_tx, input_rx) = sync_channel(input_chunks);
    (SshAuthProcess::new(output_rx, input_tx), output_tx, input_rx)
}

#[test]
fn a_write_takes_all_or_nothing() {
    let (mut process, _output, input) = channels(2);
    assert_eq!(process.write(b""), Ok(()));
    assert!(input.try_recv().is_err());
    let largest = vec![7; MAX_WRITE_BYTES];
    assert_eq!(process.write(&largest), Ok(()));
    assert_eq!(process.write(b"next"), Ok(()));
    assert_eq!(
        process.write(b"full"),
        Err(AuthError::new(ErrorKind::WouldBlock, "operation would block"))
    );
    assert_eq!(input.try_recv().unwrap(), largest);
    assert_eq!(
        process.write(&vec![7; MAX_WRITE_BYTES + 1]),
        Err(AuthError::new(
            ErrorKind::WouldBlock,
            "PTY input chunk too large"
        ))
    );
    assert_eq!(input.try_recv().unwrap(), b"next");
    assert!(input.try_recv().is_err());
    drop(input);
    let broken = AuthError::new(ErrorKind::BrokenPipe, "broken pipe");
    assert_eq!(process.write(b"x"), Err(broken.clone()));
    process.shutdown();
    assert_eq!(process.write(b"x"), Err(broken));
    assert_eq!(process.write(b""), Ok(()));
}

#[test]
fn what_comes_of_sending() {
    assert_eq!(sent(SendOutcome::Sent), Ok(()));
    assert_eq!(
        sent(SendOutcome::Full),
        Err(AuthError::from_kind(ErrorKind::WouldBlock))
    );
    assert_eq!(
        sent(SendOutcome::Disconnected),
        Err(AuthError::from_kind(ErrorKind::BrokenPipe))
    );
}

#[test]
fn a_poll_takes_so_many_pieces_and_the_next_one_the_rest() {
    assert_eq!(POLL_CHUNKS * CHUNK_BYTES, POLL_BYTES);
    let (mut process, output, _input) = channels(1);
    let mut all = Vec::new();
    for n in 0..20u8 {
        let bytes = vec![n; CHUNK_BYTES];
        output.send(Ok(piece(&bytes))).unwrap();
        all.extend(bytes);
    }
    drop(output);
    let first = process.poll(Ok(Some(true))).unwrap();
    assert_eq!(first.output.len(), POLL_BYTES);
    // There is output left, so the end is not told yet.
    assert_eq!(first.exit, None);
    assert!(!process.wants_status());
    // How it ended is latched: another status does not count, nor does an error.
    let second = process
        .poll(Err(AuthError::from_kind(ErrorKind::Other)))
        .unwrap();
    assert_eq!(second.exit, Some(true));
    assert_eq!([first.output, second.output].concat(), all);
    let third = process.poll(Ok(Some(false))).unwrap();
    assert!(third.output.is_empty());
    assert_eq!(third.exit, Some(true));
}

#[test]
fn the_end_is_told_only_when_both_have_ended() {
    let (mut process, output, _input) = channels(1);
    assert!(process.wants_status());
    assert_eq!(process.poll(Ok(None)).unwrap().exit, None);
    assert_eq!(process.poll(Ok(Some(false))).unwrap().exit, None);
    output.send(Ok(piece(b"bye"))).unwrap();
    drop(output);
    let last = process.poll(Ok(None)).unwrap();
    assert_eq!((last.output, last.exit), (b"bye".to_vec(), Some(false)));

    let (mut process, output, _input) = channels(1);
    drop(output);
    assert_eq!(process.poll(Ok(None)).unwrap().exit, None);
    assert!(process.output_done);
    assert_eq!(process.poll(Ok(Some(true))).unwrap().exit, Some(true));
}

#[test]
fn errors_of_a_poll() {
    let (mut process, output, _input) = channels(1);
    let lost = AuthError::new(ErrorKind::Other, "no child");
    output.send(Ok(piece(b"kept"))).unwrap();
    assert_eq!(process.poll(Err(lost.clone())).err(), Some(lost));
    // Nothing was taken by then.
    assert_eq!(process.poll(Ok(None)).unwrap().output, b"kept");
    let failed = AuthError::new(ErrorKind::TimedOut, "read failed");
    output.send(Err(failed.clone())).unwrap();
    assert_eq!(process.poll(Ok(None)).err(), Some(failed));
}

#[test]
fn output_before_an_error_is_not_dropped() {
    let (mut process, output, _input) = channels(1);
    let failed = AuthError::new(ErrorKind::Other, "read failed");
    output.send(Ok(piece(b"last "))).unwrap();
    output.send(Ok(piece(b"words"))).unwrap();
    output.send(Err(failed.clone())).unwrap();
    drop(output);
    let first = process.poll(Ok(None)).unwrap();
    assert_eq!((first.output, first.exit), (b"last words".to_vec(), None));
    // An error of the status comes first, and the other one waits.
    let lost = AuthError::new(ErrorKind::Other, "no child");
    assert_eq!(process.poll(Err(lost.clone())).err(), Some(lost));
    assert_eq!(process.poll(Ok(Some(false))).err(), Some(failed));
    // It is told once.
    let last = process.poll(Ok(None)).unwrap();
    assert_eq!((last.output, last.exit), (vec![], Some(false)));
}

#[test]
fn nothing_comes_after_the_end() {
    let (mut process, output, _input) = channels(1);
    output.send(Ok(piece(b"bye"))).unwrap();
    drop(output);
    let end = process.poll(Ok(Some(true))).unwrap();
    assert_eq!((end.output, end.exit), (b"bye".to_vec(), Some(true)));
    for _ in 0..3 {
        let again = process.poll(Ok(Some(false))).unwrap();
        assert_eq!((again.output, again.exit), (vec![], Some(true)));
    }
}

#[test]
fn a_piece_of_output_is_bounded() {
    let largest = vec![1; CHUNK_BYTES];
    assert_eq!(*OutputPiece::new(largest.clone()).unwrap().bytes(), largest);
    assert!(OutputPiece::new(vec![1; CHUNK_BYTES + 1]).is_none());
    assert!(OutputPiece::new(vec![]).unwrap().bytes().is_empty());
}

#[test]
fn names_are_apart_where_they_differ_in_lower_case() {
    assert!(are_apart("PATH", "HOME"));
    assert!(!are_apart("PATH", "path"));
    assert!(!are_apart("PATH", "PATH"));
    assert!(are_apart("A_1", "A-1"));
    assert!(!are_apart("GRÖSSE", "grösse"));
    assert!(are_apart("GRÖSSE", "GROSSE"));
    assert!(!are_apart("ΟΔΟΣ", "οδος"));
}

#[test]
fn changes_to_names_beyond_ascii_are_made() {
    let set = |name: &str, value: &str| (name.to_string(), Some(value.to_string()));
    let mut command = sh("true");
    command.envs = vec![
        set("FIRST", "1"),
        set("GRÖSSE", "2"),
        set("名", "3"),
        set("WEG", "4"),
        ("WEG".to_string(), None),
        set("名", "5"),
    ];
    let described = command.describe();
    let env = |name: &str| described.get_env(name).map(|value| value.to_str().unwrap());
    assert_eq!(env("FIRST"), Some("1"));
    assert_eq!(env("GRÖSSE"), Some("2"));
    assert_eq!(env("名"), Some("5"));
    assert_eq!(env("WEG"), None);
    assert_eq!(env(ASKPASS_VARIABLE), Some("never"));
    let plain = portable_pty::CommandBuilder::new("/bin/sh");
    assert_eq!(described.get_env("PATH"), plain.get_env("PATH"));
}

#[test]
fn a_command_is_applied_to_another() {
    let mut base = portable_pty::CommandBuilder::new("ssh");
    base.arg("-v");
    base.cwd("/");
    base.env("KEPT", "yes");
    base.env("GONE", "yes");
    let command = AuthCommand {
        program: "ignored".to_string(),
        args: vec!["host".to_string()],
        cwd: None,
        envs: vec![("GONE".to_string(), None)],
    };
    let applied = command.apply_to(base);
    let argv: Vec<&str> = applied
        .get_argv()
        .iter()
        .map(|arg| arg.to_str().unwrap())
        .collect();
    assert_eq!(argv, ["ssh", "-v", "host"]);
    assert_eq!(applied.get_cwd().unwrap().to_str(), Some("/"));
    let env = |name: &str| applied.get_env(name).map(|value| value.to_str().unwrap());
    assert_eq!(env("KEPT"), Some("yes"));
    assert_eq!(env("GONE"), None);
    assert_eq!(env(ASKPASS_VARIABLE), Some("never"));
}

#[test]
fn events_are_put_together_up_to_the_first_stop() {
    let (mut process, _output, _input) = channels(1);
    process.exit = Some(true);
    let chunk = |bytes: &[u8]| ChannelEvent::Chunk(piece(bytes));
    let poll = process
        .settle(&vec![chunk(b"a"), chunk(b"bc"), ChannelEvent::Empty, chunk(b"d")])
        .unwrap();
    assert_eq!((poll.output, poll.exit), (b"abc".to_vec(), None));
    let poll = process
        .settle(&vec![chunk(b"a"), ChannelEvent::Disconnected])
        .unwrap();
    assert_eq!((poll.output, poll.exit), (b"a".to_vec(), Some(true)));
    let poll = process.settle(&vec![]).unwrap();
    assert_eq!((poll.output, poll.exit), (vec![], Some(true)));
    // An error comes after the output before it.
    let (mut process, _output, _input) = channels(1);
    let failed = AuthError::new(ErrorKind::Other, "x");
    let poll = process
        .settle(&vec![chunk(b"a"), ChannelEvent::Failed(failed.clone())])
        .unwrap();
    assert_eq!((poll.output, poll.exit), (b"a".to_vec(), None));
    assert_eq!(process.failed, Some(failed.clone()));
    // Without output before it, it comes at once.
    let (mut process, _output, _input) = channels(1);
    let result = process.settle(&vec![chunk(b""), ChannelEvent::Failed(failed.clone())]);
    assert_eq!(result.err(), Some(failed));
    assert_eq!(process.failed, None);
}

#[test]
fn closing_the_channels() {
    let (mut process, output, input) = channels(1);
    process.shutdown();
    assert!(process.output.is_none());
    assert!(process.input.is_none());
    assert!(output.send(Ok(piece(b""))).is_err());
    assert!(input.recv().is_err());
    let poll = process.poll(Ok(Some(true))).unwrap();
    assert_eq!((poll.output, poll.exit), (vec![], None));
}

#[test]
fn a_program_is_killed_unless_it_has_ended() {
    assert!(!must_kill(&Ok(Some(true))));
    assert!(!must_kill(&Ok(Some(false))));
    assert!(must_kill(&Ok(None)));
    assert!(must_kill(&Err(AuthError::from_kind(ErrorKind::Other))));
}
