use auth_client::endpoint::{
    ClientEndpointId, ClientEndpointStatus, EndpointSupervisors, SavedSshEndpoint,
};
use auth_client::error::{AuthError, ErrorKind};
use auth_client::rect::Rect;
use auth_client::shell::auth::{AuthPresentation, Phase, PopupGeometry, SshAuthCommand};
use auth_client::shell::{
    ClientShellConfig, ClientShellEndpoint, ClientShellState, Interaction, ShellHits,
};
use auth_client::ssh_auth::{OutputPiece, SshAuthProcess};
use auth_client::ssh_authentication::{
    command, poll, poll_after_draw, poll_after_resize, poll_after_status, rejected, started,
    terminal_error, verified, Authentication, PollStep, Screen, INPUT_LIMIT, VERIFY_TIMEOUT,
};
use auth_client::style::{Color, Palette};
use std::collections::VecDeque;
use std::sync::mpsc::{sync_channel, Receiver, SyncSender};

const NOW: u64 = 5_000_000_000;

fn color(name: &str) -> Color {
    Color {
        name: name.to_string(),
    }
}

fn new_shell() -> ClientShellState {
    let nowhere = Rect::new(0, 0, 0, 0);
    ClientShellState {
        config: ClientShellConfig {
            palette: Palette {
                text: color("White"),
                panel_bg: color("Black"),
                accent: color("Cyan"),
                overlay0: color("Gray"),
                active_row_bg: color("Blue"),
            },
        },
        endpoints: vec![],
        hits: ShellHits {
            machines: vec![],
            popup: None,
            notification_toast: nowhere,
        },
        overlay: None,
        popup_pending: false,
        popup_terminal_id: None,
        visible_endpoint_notice: None,
        visible_notification: None,
        last_composed_size: None,
        interaction: Interaction::cleared(),
        auth: AuthPresentation::default(),
    }
}

fn set_catalog(shell: &mut ClientShellState, profiles: &[SavedSshEndpoint]) {
    shell.endpoints = profiles
        .iter()
        .map(|p| ClientShellEndpoint {
            endpoint_id: p.endpoint_id(),
            label: p.label.clone(),
            status: ClientEndpointStatus::Connected,
        })
        .collect();
}

fn build_profile() -> SavedSshEndpoint {
    SavedSshEndpoint {
        id: "build-1".to_string(),
        label: "Build".to_string(),
        target: "build".to_string(),
        session: "agents".to_string(),
        enabled: true,
    }
}

fn popup_geometry() -> Option<PopupGeometry> {
    Some(PopupGeometry {
        outer: Rect::new(8, 5, 64, 13),
        inner: Rect::new(9, 6, 62, 11),
    })
}

// No SSH subprocess, managed config, network access, or credential prompts.
fn fixture(
    now: u64,
) -> (
    Option<Authentication>,
    SavedSshEndpoint,
    EndpointSupervisors,
    ClientShellState,
) {
    let profile = build_profile();
    let id = ClientEndpointId::Ssh(profile.id.clone());
    let supervisors = EndpointSupervisors::new(std::slice::from_ref(&profile), now);
    let mut shell = new_shell();
    set_catalog(&mut shell, std::slice::from_ref(&profile));
    shell.set_endpoint_status(&id, ClientEndpointStatus::Reconnecting);
    shell.open_auth_popup_for_test(id, popup_geometry());
    shell.auth_popup_verifying();
    let attempt = Some(Authentication {
        profile: profile.clone(),
        process: None,
        pending_input: VecDeque::new(),
        size: (80, 24),
        verifying_until: Some(now + VERIFY_TIMEOUT),
    });
    (attempt, profile, supervisors, shell)
}

#[test]
fn obsolete_authentication_poll_preserves_replacement_and_disabled_endpoints() {
    obsolete_authentication_preserves_endpoint(false);
}

#[test]
fn obsolete_authentication_cancel_preserves_replacement_and_disabled_endpoints() {
    obsolete_authentication_preserves_endpoint(true);
}

fn obsolete_authentication_preserves_endpoint(cancel: bool) {
    for change in ["target", "session", "disable", "remove"] {
        let now = NOW;
        let (mut attempt, mut profile, _, mut shell) = fixture(now);
        let id = ClientEndpointId::Ssh(profile.id.clone());
        match change {
            "target" => profile.target = "replacement".into(),
            "session" => profile.session = "replacement".into(),
            "disable" => profile.enabled = false,
            _ => (),
        }
        let profiles = if change == "remove" {
            vec![]
        } else {
            vec![profile]
        };
        let mut supervisors = EndpointSupervisors::new(&profiles, now);
        set_catalog(&mut shell, &profiles);
        let status = shell.endpoint_status(&id);
        let retry = supervisors.authentication_retry(&id);
        if cancel {
            assert!(command(
                SshAuthCommand::Cancel,
                &mut attempt,
                &profiles,
                &mut supervisors,
                &mut shell,
            )
            .is_none());
        } else {
            assert!(matches!(
                poll(
                    &mut attempt,
                    &profiles,
                    &mut supervisors,
                    &mut shell,
                    now
                ),
                PollStep::Done(true)
            ));
        }
        assert!(attempt.is_none());
        assert_eq!(
            shell.endpoint_status(&id),
            status,
            "{change}, cancel={cancel}"
        );
        assert_eq!(
            supervisors.authentication_retry(&id),
            retry,
            "{change}, cancel={cancel}"
        );
    }
}

#[test]
fn authentication_verification_transient_error_keeps_retry_and_attempt() {
    let now = NOW;
    let (mut attempt, profile, mut supervisors, mut shell) = fixture(now);
    let id = ClientEndpointId::Ssh(profile.id.clone());
    rejected(
        &mut attempt,
        &id,
        &mut supervisors,
        &mut shell,
        "connection timed out",
    );
    assert!(attempt.is_some());
    assert_eq!(
        shell.endpoint_status(&id),
        Some(ClientEndpointStatus::Reconnecting)
    );
    assert_eq!(supervisors.authentication_retry(&id), Some(now));
    verified(&mut attempt, &id, &mut shell);
    assert!(attempt.is_none());
    assert!(shell.auth_popup_endpoint().is_none());
}

#[test]
fn authentication_verification_cancel_preserves_background_recovery() {
    let now = NOW;
    let (mut attempt, profile, mut supervisors, mut shell) = fixture(now);
    let id = ClientEndpointId::Ssh(profile.id.clone());
    rejected(
        &mut attempt,
        &id,
        &mut supervisors,
        &mut shell,
        "connection timed out",
    );
    command(
        SshAuthCommand::Cancel,
        &mut attempt,
        &[profile],
        &mut supervisors,
        &mut shell,
    );
    assert!(attempt.is_none());
    assert!(shell.auth_popup_endpoint().is_none());
    assert_eq!(
        shell.endpoint_status(&id),
        Some(ClientEndpointStatus::Reconnecting)
    );
    assert_eq!(supervisors.authentication_retry(&id), Some(now));
}

#[test]
fn authentication_verification_permanent_error_fails() {
    let now = NOW;
    let (mut attempt, profile, mut supervisors, mut shell) = fixture(now);
    let id = ClientEndpointId::Ssh(profile.id);
    shell.set_endpoint_status(&id, ClientEndpointStatus::Attention);
    rejected(
        &mut attempt,
        &id,
        &mut supervisors,
        &mut shell,
        "incompatible protocol",
    );
    assert!(attempt.is_none());
    assert_eq!(
        shell.endpoint_status(&id),
        Some(ClientEndpointStatus::Attention)
    );
    assert_eq!(supervisors.authentication_retry(&id), None);
    assert_eq!(shell.auth_popup_endpoint(), Some(&id));
    let popup = shell.auth.popup.as_ref().unwrap();
    assert_eq!(popup.text, "incompatible protocol\n\nVerifying connection…");
}

#[test]
fn authentication_verification_timeout_preserves_background_recovery() {
    let now = NOW;
    let (mut attempt, profile, mut supervisors, mut shell) = fixture(now);
    let id = ClientEndpointId::Ssh(profile.id.clone());
    assert!(matches!(
        poll(
            &mut attempt,
            &[profile],
            &mut supervisors,
            &mut shell,
            now + VERIFY_TIMEOUT
        ),
        PollStep::Done(true)
    ));
    assert!(attempt.is_none());
    assert_eq!(
        shell.endpoint_status(&id),
        Some(ClientEndpointStatus::Reconnecting)
    );
    assert_eq!(supervisors.authentication_retry(&id), Some(now));
    assert_eq!(shell.auth_popup_endpoint(), Some(&id));
    command(
        SshAuthCommand::Cancel,
        &mut attempt,
        &[],
        &mut supervisors,
        &mut shell,
    );
    assert_eq!(supervisors.authentication_retry(&id), Some(now));
}

type OutputEnd = SyncSender<Result<OutputPiece, AuthError>>;

fn piece(bytes: &[u8]) -> OutputPiece {
    OutputPiece::new(bytes.to_vec()).unwrap()
}

struct Running {
    attempt: Option<Authentication>,
    profiles: Vec<SavedSshEndpoint>,
    supervisors: EndpointSupervisors,
    shell: ClientShellState,
    output: Option<OutputEnd>,
    input: Receiver<Vec<u8>>,
    id: ClientEndpointId,
}

/// An attempt that was started on channels in place of a PTY.
fn running(input_chunks: usize) -> Running {
    let profile = build_profile();
    let id = profile.endpoint_id();
    let profiles = vec![profile];
    let mut supervisors = EndpointSupervisors::new(&profiles, NOW);
    let mut shell = new_shell();
    set_catalog(&mut shell, &profiles);
    shell.open_auth_popup(id.clone(), popup_geometry());
    let (cols, rows) = shell.auth_popup_size().unwrap();
    let mut attempt = None;
    let request = command(
        SshAuthCommand::Start {
            endpoint_id: id.clone(),
            cols,
            rows,
        },
        &mut attempt,
        &profiles,
        &mut supervisors,
        &mut shell,
    )
    .unwrap();
    assert_eq!(request.profile, profiles[0]);
    assert_eq!((request.cols, request.rows), (cols, rows));
    assert_eq!(supervisors.authentication_retry(&id), None);
    let (output_tx, output_rx) = sync_channel(32);
    let (input_tx, input_rx) = sync_channel(input_chunks);
    started(
        &mut attempt,
        &mut shell,
        request,
        Ok(SshAuthProcess::new(output_rx, input_tx)),
    );
    Running {
        attempt,
        profiles,
        supervisors,
        shell,
        output: Some(output_tx),
        input: input_rx,
        id,
    }
}

impl Running {
    fn poll(&mut self) -> PollStep {
        poll(
            &mut self.attempt,
            &self.profiles,
            &mut self.supervisors,
            &mut self.shell,
            NOW,
        )
    }

    fn status(&mut self, step: PollStep, waited: Result<Option<bool>, AuthError>) -> PollStep {
        let PollStep::Ask(turn) = step else {
            panic!("the status was not asked for")
        };
        poll_after_status(
            &mut self.attempt,
            &mut self.supervisors,
            &mut self.shell,
            NOW,
            turn,
            waited,
        )
    }

    fn type_in(&mut self, bytes: &[u8]) {
        assert!(command(
            SshAuthCommand::Input(bytes.to_vec()),
            &mut self.attempt,
            &self.profiles,
            &mut self.supervisors,
            &mut self.shell,
        )
        .is_none());
    }
}

#[test]
fn output_is_drawn_before_success_is_reported() {
    let mut run = running(16);
    let output = run.output.take().unwrap();
    output.send(Ok(piece(b"Password: "))).unwrap();
    output.send(Ok(piece(b"ok\n"))).unwrap();
    drop(output);
    let step = run.poll();
    let step = run.status(step, Ok(Some(true)));
    let PollStep::Draw(turn, bytes) = step else {
        panic!("output was not drawn")
    };
    assert_eq!(bytes, b"Password: ok\n");
    assert_eq!(turn.exit, Some(true));
    assert_eq!(turn.viewport_end(), (61, 8));
    let screen = Screen {
        text: "Password: ok\u{7}".to_string(),
        cursor_visible: false,
        cursor: Some((0, 1)),
    };
    let done = poll_after_draw(
        &mut run.attempt,
        &mut run.supervisors,
        &mut run.shell,
        NOW,
        turn,
        Ok(screen),
    );
    assert!(matches!(done, PollStep::Done(true)));
    let auth = run.attempt.as_ref().unwrap();
    assert!(!auth.has_process());
    assert_eq!(auth.verifying_until, Some(NOW + VERIFY_TIMEOUT));
    assert_eq!(run.supervisors.authentication_retry(&run.id), Some(NOW));
    let popup = run.shell.auth.popup.as_ref().unwrap();
    assert_eq!(popup.phase, Phase::Verifying);
    assert_eq!(popup.text, "Verifying connection…");
    // Waiting for the machine: nothing to do until the deadline.
    assert!(matches!(run.poll(), PollStep::Done(false)));
}

#[test]
fn drawing_updates_the_popup() {
    let mut run = running(16);
    let output = run.output.take().unwrap();
    output.send(Ok(piece(b"Code: "))).unwrap();
    let step = run.poll();
    let PollStep::Draw(turn, bytes) = run.status(step, Ok(None)) else {
        panic!("output was not drawn")
    };
    assert_eq!((turn.exit, bytes), (None, b"Code: ".to_vec()));
    let done = poll_after_draw(
        &mut run.attempt,
        &mut run.supervisors,
        &mut run.shell,
        NOW,
        turn,
        Ok(Screen {
            text: "Co\u{1b}de: \n".to_string(),
            cursor_visible: true,
            cursor: Some((6, 0)),
        }),
    );
    assert!(matches!(done, PollStep::Done(true)));
    let popup = run.shell.auth.popup.as_ref().unwrap();
    assert_eq!(popup.text, "Code: \n");
    assert_eq!(popup.cursor, Some((6, 0)));
    // No more output: nothing changes.
    let step = run.poll();
    assert!(matches!(run.status(step, Ok(None)), PollStep::Done(false)));
}

#[test]
fn failure_of_the_program_ends_the_attempt() {
    let mut run = running(16);
    drop(run.output.take());
    let step = run.poll();
    let done = run.status(step, Ok(Some(false)));
    assert!(matches!(done, PollStep::Done(true)));
    assert!(run.attempt.is_none());
    assert_eq!(
        run.shell.endpoint_status(&run.id),
        Some(ClientEndpointStatus::Attention)
    );
    assert_eq!(run.supervisors.authentication_retry(&run.id), None);
    let popup = run.shell.auth.popup.as_ref().unwrap();
    assert_eq!(popup.phase, Phase::Failed);
    assert_eq!(
        popup.text,
        "SSH authentication did not complete. Close the popup and try again.\n\n"
    );
}

#[test]
fn errors_of_the_host_end_the_attempt() {
    let mut run = running(16);
    let step = run.poll();
    let done = run.status(step, Err(AuthError::new(ErrorKind::Other, "no such child")));
    assert!(matches!(done, PollStep::Done(true)));
    assert!(run.attempt.is_none());
    assert_eq!(
        run.shell.auth.popup.as_ref().unwrap().text,
        "no such child\n\n"
    );

    let mut run = running(16);
    let output = run.output.take().unwrap();
    output
        .send(Err(AuthError::new(ErrorKind::Other, "read failed")))
        .unwrap();
    let step = run.poll();
    assert!(matches!(run.status(step, Ok(None)), PollStep::Done(true)));
    assert!(run.attempt.is_none());

    let mut run = running(16);
    let output = run.output.take().unwrap();
    output.send(Ok(piece(b"x"))).unwrap();
    let step = run.poll();
    let PollStep::Draw(turn, _) = run.status(step, Ok(None)) else {
        panic!("output was not drawn")
    };
    let done = poll_after_draw(
        &mut run.attempt,
        &mut run.supervisors,
        &mut run.shell,
        NOW,
        turn,
        Err(terminal_error("no viewport".to_string())),
    );
    assert!(matches!(done, PollStep::Done(true)));
    assert!(run.attempt.is_none());
    assert_eq!(
        run.shell.auth.popup.as_ref().unwrap().text,
        "no viewport\n\n"
    );
}

#[test]
fn output_before_an_error_is_drawn_before_the_attempt_fails() {
    let mut run = running(16);
    let output = run.output.take().unwrap();
    output.send(Ok(piece(b"Denied."))).unwrap();
    output
        .send(Err(AuthError::new(ErrorKind::Other, "read failed")))
        .unwrap();
    drop(output);
    let step = run.poll();
    let PollStep::Draw(turn, bytes) = run.status(step, Ok(Some(false))) else {
        panic!("output was not drawn")
    };
    assert_eq!((turn.exit, bytes), (None, b"Denied.".to_vec()));
    let done = poll_after_draw(
        &mut run.attempt,
        &mut run.supervisors,
        &mut run.shell,
        NOW,
        turn,
        Ok(Screen {
            text: "Denied.".to_string(),
            cursor_visible: false,
            cursor: None,
        }),
    );
    assert!(matches!(done, PollStep::Done(true)));
    assert!(run.attempt.is_some());
    // The status is known by now, so the next poll needs nothing of the host.
    assert!(matches!(run.poll(), PollStep::Done(true)));
    assert!(run.attempt.is_none());
    assert_eq!(
        run.shell.auth.popup.as_ref().unwrap().text,
        "read failed\n\nDenied."
    );
}

#[test]
fn a_popup_of_another_size_resizes_first() {
    let mut run = running(16);
    run.shell.auth.popup.as_mut().unwrap().size = (40, 5);
    let PollStep::Resize(turn) = run.poll() else {
        panic!("no resize")
    };
    assert_eq!(turn.size, (40, 5));
    let step = poll_after_resize(
        &mut run.attempt,
        &mut run.supervisors,
        &mut run.shell,
        NOW,
        turn,
        Ok(()),
    );
    assert_eq!(run.attempt.as_ref().unwrap().size, (40, 5));
    // A resize is drawn even without output.
    let PollStep::Draw(turn, bytes) = run.status(step, Ok(None)) else {
        panic!("the resize was not drawn")
    };
    assert!(turn.resized);
    assert!(bytes.is_empty());
    // The next poll has nothing to resize.
    assert!(matches!(run.poll(), PollStep::Ask(_)));

    run.shell.auth.popup.as_mut().unwrap().size = (41, 5);
    let PollStep::Resize(turn) = run.poll() else {
        panic!("no resize")
    };
    let done = poll_after_resize(
        &mut run.attempt,
        &mut run.supervisors,
        &mut run.shell,
        NOW,
        turn,
        Err(AuthError::from_kind(ErrorKind::Other)),
    );
    assert!(matches!(done, PollStep::Done(true)));
    assert!(run.attempt.is_none());
    assert_eq!(
        run.shell.auth.popup.as_ref().unwrap().text,
        "other error\n\n"
    );
}

#[test]
fn input_is_written_in_order_and_kept_while_the_queue_is_full() {
    let mut run = running(2);
    let mut typed: Vec<u8> = Vec::new();
    for n in 0..10_000u32 {
        typed.push((n % 251) as u8);
    }
    run.type_in(&typed[..6000]);
    run.type_in(&typed[6000..]);
    assert!(matches!(run.poll(), PollStep::Ask(_)));
    // Two pieces went into the queue, the third has to wait.
    assert_eq!(run.attempt.as_ref().unwrap().pending_input, &typed[8192..]);
    assert_eq!(run.input.try_recv().unwrap(), typed[..4096]);
    assert_eq!(run.input.try_recv().unwrap(), typed[4096..8192]);
    assert!(matches!(run.poll(), PollStep::Ask(_)));
    assert!(run.attempt.as_ref().unwrap().pending_input.is_empty());
    assert_eq!(run.input.try_recv().unwrap(), typed[8192..]);
}

#[test]
fn input_to_a_closed_channel_ends_the_attempt() {
    let mut run = running(2);
    let (_, other) = sync_channel(1);
    run.input = other;
    run.type_in(b"secret");
    assert!(matches!(run.poll(), PollStep::Done(true)));
    assert!(run.attempt.is_none());
    assert_eq!(
        run.shell.auth.popup.as_ref().unwrap().text,
        "broken pipe\n\n"
    );
}

#[test]
fn too_much_input_ends_the_attempt() {
    let mut run = running(2);
    run.type_in(&vec![1; INPUT_LIMIT]);
    assert_eq!(
        run.attempt.as_ref().unwrap().pending_input.len(),
        INPUT_LIMIT
    );
    run.type_in(&[1]);
    assert!(run.attempt.is_none());
    assert_eq!(
        run.shell.endpoint_status(&run.id),
        Some(ClientEndpointStatus::Attention)
    );
    assert_eq!(
        run.shell.auth.popup.as_ref().unwrap().text,
        "Authentication input is too large. Close and try again.\n\n"
    );
}

#[test]
fn input_while_verifying_is_dropped() {
    let (mut attempt, profile, mut supervisors, mut shell) = fixture(NOW);
    command(
        SshAuthCommand::Input(b"late".to_vec()),
        &mut attempt,
        &[profile],
        &mut supervisors,
        &mut shell,
    );
    assert!(attempt.unwrap().pending_input.is_empty());
}

#[test]
fn cancelling_authentication_wants_attention() {
    let mut run = running(2);
    command(
        SshAuthCommand::Cancel,
        &mut run.attempt,
        &run.profiles,
        &mut run.supervisors,
        &mut run.shell,
    );
    assert!(run.attempt.is_none());
    assert!(run.shell.auth_popup_endpoint().is_none());
    assert_eq!(
        run.shell.endpoint_status(&run.id),
        Some(ClientEndpointStatus::Attention)
    );
    assert_eq!(run.supervisors.authentication_retry(&run.id), None);
}

#[test]
fn an_attempt_whose_popup_is_gone_is_over() {
    let mut run = running(2);
    run.supervisors.retry_after_authentication(&run.id, NOW);
    run.shell.close_auth_popup();
    assert!(matches!(run.poll(), PollStep::Done(true)));
    assert!(run.attempt.is_none());
    assert_eq!(run.supervisors.authentication_retry(&run.id), None);
    assert_eq!(
        run.shell.endpoint_status(&run.id),
        Some(ClientEndpointStatus::Connected)
    );
    assert!(matches!(run.poll(), PollStep::Done(false)));
}

#[test]
fn starting_needs_an_enabled_supervised_machine_and_its_popup() {
    let profile = build_profile();
    let id = profile.endpoint_id();
    let start = || SshAuthCommand::Start {
        endpoint_id: id.clone(),
        cols: 80,
        rows: 24,
    };
    // No popup.
    let profiles = vec![profile];
    let mut supervisors = EndpointSupervisors::new(&profiles, NOW);
    let mut shell = new_shell();
    let mut attempt = None;
    let none = command(start(), &mut attempt, &profiles, &mut supervisors, &mut shell);
    assert!(none.is_none());
    assert_eq!(supervisors.authentication_retry(&id), Some(NOW));
    // A popup, but no profile.
    shell.open_auth_popup(id.clone(), None);
    let none = command(start(), &mut attempt, &[], &mut supervisors, &mut shell);
    assert!(none.is_none());
    assert_eq!(
        shell.auth.popup.as_ref().unwrap().text,
        "This machine was removed or disabled.\n\n"
    );
    assert_eq!(supervisors.authentication_retry(&id), Some(NOW));
    // A profile, but no supervisor.
    let mut unsupervised = EndpointSupervisors::new(&[], NOW);
    let none = command(start(), &mut attempt, &profiles, &mut unsupervised, &mut shell);
    assert!(none.is_none());
    // All of it.
    let request = command(start(), &mut attempt, &profiles, &mut supervisors, &mut shell);
    assert!(request.is_some());
    assert_eq!(supervisors.authentication_retry(&id), None);
    // It could not be started.
    started(
        &mut attempt,
        &mut shell,
        request.unwrap(),
        Err(AuthError::new(ErrorKind::Other, "no pty")),
    );
    assert!(attempt.is_none());
    assert!(shell.auth.popup.as_ref().unwrap().text.starts_with("no pty\n\n"));
}

#[test]
fn only_one_attempt_at_a_time() {
    let mut run = running(2);
    let again = command(
        SshAuthCommand::Start {
            endpoint_id: run.id.clone(),
            cols: 1,
            rows: 1,
        },
        &mut run.attempt,
        &run.profiles,
        &mut run.supervisors,
        &mut run.shell,
    );
    assert!(again.is_none());
    assert!(run.attempt.unwrap().has_process());
}

#[test]
fn another_machine_does_not_verify_the_attempt() {
    let (mut attempt, _, _, mut shell) = fixture(NOW);
    let other = ClientEndpointId::Ssh("other".to_string());
    verified(&mut attempt, &other, &mut shell);
    assert!(attempt.is_some());
    assert!(shell.auth_popup_endpoint().is_some());
}

#[test]
fn supervisors_are_of_enabled_profiles_only() {
    let mut disabled = build_profile();
    disabled.id = "off".to_string();
    disabled.enabled = false;
    let profiles = vec![build_profile(), disabled, build_profile()];
    let supervisors = EndpointSupervisors::new(&profiles, 7);
    assert_eq!(supervisors.supervised.len(), 1);
    assert_eq!(
        supervisors.authentication_retry(&profiles[0].endpoint_id()),
        Some(7)
    );
    let mut supervisors = supervisors;
    assert!(!supervisors.pause_authentication(&profiles[1].endpoint_id()));
    assert!(!supervisors.pause_authentication(&ClientEndpointId::Local));
    assert!(supervisors.pause_authentication(&profiles[0].endpoint_id()));
}
