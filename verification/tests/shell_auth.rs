use auth_client::endpoint::{ClientEndpointId, ClientEndpointStatus};
use auth_client::input::{
    KeyCode, KeyEventKind, KeyInput, MouseButton, MouseEventKind, MouseInput, RawInputEvent,
};
use auth_client::rect::{contains, Rect};
use auth_client::shell::auth::{
    geometry, geometry_with_hint, popup_request, AuthPresentation, Phase, PopupGeometry,
    PopupSize, SshAuthCommand, HIDDEN_INPUT_HINT,
};
use auth_client::shell::{
    ClientShellAction, ClientShellConfig, ClientShellEndpoint, ClientShellInput,
    ClientShellMode, ClientShellState, Interaction, MachineHit, ShellHits,
};
use auth_client::style::{Color, Palette, Style, BOLD, REVERSED};

fn color(name: &str) -> Color {
    Color {
        name: name.to_string(),
    }
}

fn ssh(id: &str) -> ClientEndpointId {
    ClientEndpointId::Ssh(id.to_string())
}

fn machine(id: ClientEndpointId, status: ClientEndpointStatus) -> ClientShellEndpoint {
    ClientShellEndpoint {
        endpoint_id: id,
        label: "Build".to_string(),
        status,
    }
}

fn hit(id: ClientEndpointId, row: u16) -> MachineHit {
    MachineHit {
        endpoint_id: id,
        rect: Rect::new(0, row, 20, 1),
        status_badge: Rect::new(16, row, 4, 1),
    }
}

/// A shell with three machines on the screen: `a` at row 1, `b` at row 2, this one at row 3.
fn shell() -> ClientShellState {
    ClientShellState {
        config: ClientShellConfig {
            palette: Palette {
                text: color("White"),
                panel_bg: color("Black"),
                accent: color("Cyan"),
                overlay0: color("Gray"),
                active_row_bg: color("Blue"),
            },
        },
        endpoints: vec![
            machine(ClientEndpointId::Local, ClientEndpointStatus::Attention),
            machine(ssh("a"), ClientEndpointStatus::Attention),
            machine(ssh("b"), ClientEndpointStatus::Attention),
        ],
        hits: ShellHits {
            machines: vec![hit(ssh("a"), 1), hit(ssh("b"), 2), hit(ClientEndpointId::Local, 3)],
            popup: None,
            notification_toast: Rect::new(10, 0, 10, 2),
        },
        overlay: None,
        popup_pending: false,
        popup_terminal_id: None,
        visible_endpoint_notice: None,
        visible_notification: None,
        last_composed_size: None,
        interaction: Interaction::cleared(),
        auth: AuthPresentation::default(),
    }
}

/// The same, where all machines ask for authentication.
fn asking() -> ClientShellState {
    let mut shell = shell();
    for id in [ssh("a"), ssh("b"), ClientEndpointId::Local] {
        shell.set_endpoint_auth_required(&id, true);
    }
    shell
}

fn resolved() -> Option<PopupGeometry> {
    Some(PopupGeometry {
        outer: Rect::new(8, 5, 64, 13),
        inner: Rect::new(9, 6, 62, 11),
    })
}

fn mouse(kind: MouseEventKind, column: u16, row: u16) -> RawInputEvent {
    RawInputEvent::Mouse(MouseInput { kind, column, row })
}

fn left(column: u16, row: u16) -> RawInputEvent {
    mouse(MouseEventKind::Down(MouseButton::Left), column, row)
}

fn key(code: KeyCode, kind: KeyEventKind, legacy: &[u8]) -> RawInputEvent {
    RawInputEvent::Key(KeyInput {
        code,
        kind,
        legacy: legacy.to_vec(),
    })
}

fn plain() -> Style {
    Style {
        fg: Some(color("Red")),
        bg: None,
        underline_color: None,
        add_modifier: 0x10,
        sub_modifier: BOLD | REVERSED | 0x02,
    }
}

fn badge(shell: &mut ClientShellState, event: RawInputEvent) -> (bool, ClientShellInput) {
    let mut outcome = ClientShellInput::default();
    let opened = shell.handle_auth_badge_event(&event, &mut outcome, resolved());
    (opened, outcome)
}

#[test]
fn a_command_is_logged_without_its_input() {
    let start = SshAuthCommand::Start {
        endpoint_id: ssh("a"),
        cols: 80,
        rows: 24,
    };
    assert_eq!(start.debug_text(), "SshAuth::Start");
    let input = SshAuthCommand::Input(b"hunter2".to_vec());
    assert_eq!(input.debug_text(), "SshAuth::Input([redacted])");
    assert_eq!(
        SshAuthCommand::Input(vec![]).debug_text(),
        input.debug_text()
    );
    assert_eq!(SshAuthCommand::Cancel.debug_text(), "SshAuth::Cancel");
}

#[test]
fn only_remote_machines_that_want_attention_ask() {
    let shell = asking();
    let auth = &shell.auth;
    assert!(auth.required_for(&machine(ssh("a"), ClientEndpointStatus::Attention)));
    assert!(!auth.required_for(&machine(ssh("a"), ClientEndpointStatus::Reconnecting)));
    assert!(!auth.required_for(&machine(ssh("a"), ClientEndpointStatus::Connected)));
    assert!(!auth.required_for(&machine(ssh("c"), ClientEndpointStatus::Attention)));
    let local = machine(ClientEndpointId::Local, ClientEndpointStatus::Attention);
    assert!(!auth.required_for(&local));
}

#[test]
fn asking_is_set_and_taken_back() {
    let mut shell = shell();
    let a = machine(ssh("a"), ClientEndpointStatus::Attention);
    let b = machine(ssh("b"), ClientEndpointStatus::Attention);
    shell.set_endpoint_auth_required(&ssh("a"), true);
    shell.set_endpoint_auth_required(&ssh("b"), true);
    shell.set_endpoint_auth_required(&ssh("a"), true);
    assert_eq!(shell.auth.required.len(), 2);
    assert!(shell.auth.required_for(&a));
    shell.set_endpoint_auth_required(&ssh("a"), false);
    assert!(!shell.auth.required_for(&a));
    assert!(shell.auth.required_for(&b));
    shell.set_endpoint_auth_required(&ssh("a"), false);
    assert_eq!(shell.auth.required, [ssh("b")]);
}

#[test]
fn badge_styles() {
    let mut shell = asking();
    let a = machine(ssh("a"), ClientEndpointStatus::Attention);
    let calm = machine(ssh("a"), ClientEndpointStatus::Connected);
    let palette = &shell.config.palette;
    assert_eq!(shell.auth.badge_style(&calm, palette, plain()), plain());
    assert_eq!(
        shell.auth.badge_style(&a, palette, plain()),
        Style {
            add_modifier: 0x11,
            sub_modifier: 0x42,
            ..plain()
        }
    );
    shell.auth.hover = Some(ssh("b"));
    assert_eq!(
        shell.auth.badge_style(&a, palette, plain()).add_modifier,
        0x11
    );
    shell.auth.hover = Some(ssh("a"));
    assert_eq!(
        shell.auth.badge_style(&a, palette, plain()),
        Style {
            bg: Some(color("Blue")),
            add_modifier: 0x51,
            sub_modifier: 0x02,
            ..plain()
        }
    );
}

#[test]
fn modifier_bits_are_those_of_the_terminal_library() {
    let bold = ratatui::style::Modifier::BOLD.bits();
    let reversed = ratatui::style::Modifier::REVERSED.bits();
    assert_eq!((BOLD, REVERSED), (bold, reversed));
    let there = ratatui::style::Style::default()
        .add_modifier(ratatui::style::Modifier::REVERSED)
        .remove_modifier(ratatui::style::Modifier::BOLD)
        .add_modifier(ratatui::style::Modifier::BOLD);
    let here = Style {
        fg: None,
        bg: None,
        underline_color: None,
        add_modifier: REVERSED,
        sub_modifier: BOLD,
    }
    .add_modifier(BOLD);
    assert_eq!(here.add_modifier, there.add_modifier.bits());
    assert_eq!(here.sub_modifier, there.sub_modifier.bits());
}

#[test]
fn badges_are_those_of_painted_machines_that_ask() {
    let mut shell = asking();
    assert_eq!(
        shell.auth_badges(),
        [
            (Rect::new(16, 1, 4, 1), &ssh("a")),
            (Rect::new(16, 2, 4, 1), &ssh("b"))
        ]
    );
    shell.hits.machines[0].rect.width = 0;
    assert_eq!(shell.auth_badges(), [(Rect::new(16, 2, 4, 1), &ssh("b"))]);
    shell.set_endpoint_status(&ssh("b"), ClientEndpointStatus::Reconnecting);
    assert!(shell.auth_badges().is_empty());
    shell.hits.machines[0].rect.width = 1;
    shell.endpoints.remove(1);
    assert!(shell.auth_badges().is_empty());
}

#[test]
fn a_popup_asks_for_a_part_of_the_screen() {
    let request = popup_request(100, 40);
    assert_eq!(request.width, PopupSize::Percent(80));
    assert_eq!(request.height, PopupSize::Percent(55));
    assert_eq!(request.area, Rect::new(0, 0, 100, 40));
}

#[test]
fn layout_of_a_popup() {
    // The hint takes one line of 62 columns.
    assert_eq!(HIDDEN_INPUT_HINT.len(), 53);
    let (outer, terminal, cancel) = geometry(80, 24, resolved());
    assert_eq!(outer, Rect::new(8, 5, 64, 13));
    assert_eq!(terminal, Rect::new(9, 6, 62, 9));
    assert_eq!(cancel, Rect::new(9, 16, 12, 1));
    // And four of 20: "Your input is", "hidden. Type your", "code and press" and "Enter.".
    let narrow = Some(PopupGeometry {
        outer: Rect::new(0, 0, 22, 12),
        inner: Rect::new(1, 1, 20, 10),
    });
    let (_, terminal, cancel) = geometry(80, 24, narrow);
    assert_eq!(terminal, Rect::new(1, 1, 20, 5));
    assert_eq!(cancel, Rect::new(1, 10, 12, 1));
    // No room for a popup: the terminal takes the screen.
    let all = Rect::new(0, 0, 3, 2);
    assert_eq!(geometry(3, 2, None), (all, all, Rect::new(0, 0, 0, 0)));
}

#[test]
fn layout_for_a_given_hint() {
    let at = |inner: Rect, lines: usize| {
        let g = PopupGeometry { outer: inner, inner };
        let (_, terminal, cancel) = geometry_with_hint(80, 24, Some(g), lines);
        (terminal, cancel)
    };
    assert_eq!(
        at(Rect::new(1, 1, 20, 10), 4),
        (Rect::new(1, 1, 20, 5), Rect::new(1, 10, 12, 1))
    );
    // Two rows are left beside the hint.
    assert_eq!(
        at(Rect::new(1, 1, 8, 4), 100_000),
        (Rect::new(1, 1, 8, 1), Rect::new(1, 4, 8, 1))
    );
    assert_eq!(
        at(Rect::new(0, 0, 5, 1), 3),
        (Rect::new(0, 0, 5, 0), Rect::new(0, 0, 5, 1))
    );
    assert_eq!(
        at(Rect::new(0, 0, 0, 0), 0),
        (Rect::new(0, 0, 0, 0), Rect::new(0, 0, 0, 1))
    );
    // At the edge of the largest screen.
    let edge = Rect {
        x: 65_530,
        y: 65_530,
        width: 20,
        height: 20,
    };
    let (terminal, cancel) = at(edge, 2);
    assert_eq!(terminal.height, 17);
    assert_eq!((cancel.x, cancel.y, cancel.width, cancel.height), (65_530, 65_534, 5, 1));
}

#[test]
fn rectangles_hold_their_cells() {
    let rect = Rect::new(2, 3, 4, 5);
    assert_eq!(rect.bottom(), 8);
    for (point, inside) in [
        ((2, 3), true),
        ((5, 7), true),
        ((6, 7), false),
        ((5, 8), false),
        ((1, 3), false),
        ((2, 2), false),
    ] {
        assert_eq!(contains(rect, point), inside, "{point:?}");
    }
    let cut = Rect::new(65_000, 1, 1000, 1);
    let there = ratatui::layout::Rect::new(65_000, 1, 1000, 1);
    assert_eq!((cut.width, cut.height), (there.width, there.height));
    assert_eq!(cut.width, 535);
}

#[test]
fn opening_ends_what_was_under_way() {
    let mut shell = asking();
    shell.auth.hover = Some(ssh("a"));
    shell.interaction.selection = Some(((0, 0), (5, 5)));
    shell.interaction.mode = ClientShellMode::Copy;
    shell.interaction.copy_mode = Some((1, 1));
    shell.interaction.tab_press = Some((2, 2));
    shell.interaction.input_source_stale = false;
    shell.open_auth_popup(ssh("a"), resolved());
    assert_eq!(shell.interaction, Interaction::cleared());
    assert_eq!(shell.interaction.mode, ClientShellMode::Terminal);
    assert!(shell.interaction.input_source_stale);
    assert_eq!(shell.auth.hover, None);
    let popup = shell.auth.popup.as_ref().unwrap();
    assert_eq!(popup.endpoint, ssh("a"));
    assert_eq!(popup.text, "");
    assert_eq!(popup.phase, Phase::Authenticating);
    assert_eq!(popup.cursor, None);
    assert_eq!(popup.size, (62, 9));
    assert_eq!(popup.cancel, Rect::new(9, 16, 12, 1));
    assert_eq!(shell.auth_popup_size(), Some((62, 9)));
    assert_eq!(shell.auth_popup_endpoint(), Some(&ssh("a")));
}

#[test]
fn a_popup_opens_on_the_screen_composed_last() {
    let mut shell = shell();
    assert_eq!(shell.auth_popup_screen(), (80, 24));
    shell.open_auth_popup_for_test(ssh("a"), None);
    assert_eq!(shell.auth_popup_size(), Some((80, 24)));
    shell.last_composed_size = Some((0, 7));
    assert_eq!(shell.auth_popup_screen(), (0, 7));
    shell.open_auth_popup(ssh("a"), None);
    assert_eq!(shell.auth_popup_size(), Some((1, 7)));
}

#[test]
fn a_popup_shows_the_terminal_while_it_authenticates() {
    let mut shell = shell();
    shell.update_auth_popup("lost".to_string(), None);
    assert!(shell.auth_popup_size().is_none());
    shell.open_auth_popup(ssh("a"), resolved());
    shell.update_auth_popup("Code:\u{7} \n".to_string(), Some((6, 0)));
    let popup = shell.auth.popup.as_ref().unwrap();
    assert_eq!((popup.text.as_str(), popup.cursor), ("Code: \n", Some((6, 0))));
    shell.auth_popup_verifying();
    shell.update_auth_popup("late".to_string(), Some((0, 0)));
    let popup = shell.auth.popup.as_ref().unwrap();
    assert_eq!(popup.text, "Verifying connection…");
    assert_eq!((popup.phase, popup.cursor), (Phase::Verifying, None));
    shell.close_auth_popup();
    assert!(shell.auth_popup_endpoint().is_none());
}

#[test]
fn a_failed_popup_keeps_its_verdict() {
    let mut shell = shell();
    shell.auth_popup_failed("nobody sees it".to_string());
    assert!(shell.auth.popup.is_none());
    shell.open_auth_popup(ssh("a"), resolved());
    let lines: Vec<String> = (0..20).map(|n| format!("line {n}")).collect();
    shell.update_auth_popup(lines.join("\n") + "\n\n", Some((1, 1)));
    shell.auth_popup_failed("Denied\u{1b}.".to_string());
    let popup = shell.auth.popup.as_ref().unwrap();
    // Nine rows: two for the reason and the blank line, seven for output.
    assert_eq!(popup.text, format!("Denied.\n\n{}", lines[13..].join("\n")));
    assert_eq!((popup.phase, popup.cursor), (Phase::Failed, None));
    let shown = popup.text.clone();
    shell.update_auth_popup("late".to_string(), Some((0, 0)));
    assert_eq!(shell.auth.popup.as_ref().unwrap().text, shown);
}

#[test]
fn a_click_on_a_badge_opens_the_popup() {
    let mut shell = asking();
    let (opened, outcome) = badge(&mut shell, left(17, 2));
    assert!(opened);
    assert!(outcome.repaint);
    assert_eq!(outcome.actions.len(), 1);
    assert!(matches!(
        &outcome.actions[0],
        ClientShellAction::SshAuth(SshAuthCommand::Start { endpoint_id, cols: 62, rows: 9 })
            if *endpoint_id == ssh("b")
    ));
    assert_eq!(shell.auth_popup_endpoint(), Some(&ssh("b")));
}

#[test]
fn other_events_open_nothing() {
    for event in [
        left(15, 1),
        left(17, 3),
        left(17, 4),
        mouse(MouseEventKind::Down(MouseButton::Right), 17, 1),
        mouse(MouseEventKind::Up(MouseButton::Left), 17, 1),
        mouse(MouseEventKind::Drag(MouseButton::Left), 17, 1),
        mouse(MouseEventKind::Scroll, 17, 1),
        key(KeyCode::Other, KeyEventKind::Press, b"x"),
        RawInputEvent::Text("x".to_string()),
        RawInputEvent::Paste("x".to_string()),
        RawInputEvent::Other,
    ] {
        let mut shell = asking();
        shell.auth.hover = Some(ssh("a"));
        let (opened, outcome) = badge(&mut shell, event);
        assert!(!opened);
        assert!(!outcome.repaint);
        assert!(outcome.actions.is_empty());
        assert!(shell.auth_popup_endpoint().is_none());
        assert_eq!(shell.auth.hover, Some(ssh("a")));
    }
}

#[test]
fn the_badge_below_the_pointer_is_highlighted() {
    let mut shell = asking();
    let (opened, outcome) = badge(&mut shell, mouse(MouseEventKind::Moved, 16, 1));
    assert!(!opened && outcome.repaint);
    assert_eq!(shell.auth.hover, Some(ssh("a")));
    // Within the same badge nothing changes.
    let (_, outcome) = badge(&mut shell, mouse(MouseEventKind::Moved, 19, 1));
    assert!(!outcome.repaint);
    let (_, outcome) = badge(&mut shell, mouse(MouseEventKind::Moved, 19, 2));
    assert!(outcome.repaint);
    assert_eq!(shell.auth.hover, Some(ssh("b")));
    let (_, outcome) = badge(&mut shell, mouse(MouseEventKind::Moved, 0, 0));
    assert!(outcome.repaint);
    assert_eq!(shell.auth.hover, None);
    let (_, outcome) = badge(&mut shell, mouse(MouseEventKind::Moved, 1, 0));
    assert!(!outcome.repaint);
}

#[test]
fn what_covers_the_badges_takes_the_events() {
    let cover: [fn(&mut ClientShellState); 6] = [
        |shell| shell.overlay = Some(1),
        |shell| shell.popup_pending = true,
        |shell| shell.popup_terminal_id = Some(3),
        |shell| shell.hits.popup = Some(Rect::new(50, 20, 1, 1)),
        |shell| shell.visible_endpoint_notice = Some("notice".to_string()),
        |shell| shell.visible_notification = Some("done".to_string()),
    ];
    for cover in cover {
        let mut shell = asking();
        shell.auth.hover = Some(ssh("a"));
        cover(&mut shell);
        let (opened, outcome) = badge(&mut shell, left(17, 1));
        assert!(!opened && outcome.repaint);
        assert!(outcome.actions.is_empty());
        assert_eq!(shell.auth.hover, None);
        assert!(shell.auth_popup_endpoint().is_none());
        let (opened, outcome) = badge(&mut shell, left(17, 1));
        assert!(!opened && !outcome.repaint);
    }
    // A notice covers only where its toast is.
    let mut shell = asking();
    shell.visible_notification = Some("done".to_string());
    assert!(badge(&mut shell, left(17, 2)).0);
    // Without a notice the toast's place covers nothing.
    assert!(badge(&mut asking(), left(17, 1)).0);
}

#[test]
fn typed_input_goes_to_the_attempt_in_order() {
    let mut shell = shell();
    let typed = || {
        vec![
            key(KeyCode::Other, KeyEventKind::Press, b"\x1b[A"),
            RawInputEvent::Text("é".to_string()),
            left(0, 0),
            RawInputEvent::Paste("two\nlines".to_string()),
            key(KeyCode::Esc, KeyEventKind::Release, b""),
            RawInputEvent::Other,
        ]
    };
    assert!(shell.handle_auth_input(typed()).actions.is_empty());
    shell.open_auth_popup(ssh("a"), resolved());
    let outcome = shell.handle_auth_input(typed());
    assert!(!outcome.repaint);
    assert_eq!(outcome.actions.len(), 1);
    let ClientShellAction::SshAuth(SshAuthCommand::Input(bytes)) = &outcome.actions[0] else {
        panic!("no input")
    };
    assert_eq!(bytes, "\u{1b}[Aétwo\nlines".as_bytes());
    // Nothing typed, nothing sent.
    assert!(shell
        .handle_auth_input(vec![left(0, 0), RawInputEvent::Other])
        .actions
        .is_empty());
    // Nothing is taken once it no longer authenticates.
    shell.auth_popup_verifying();
    assert!(shell.handle_auth_input(typed()).actions.is_empty());
}

#[test]
fn giving_up_discards_the_batch() {
    for give_up in [
        || key(KeyCode::Esc, KeyEventKind::Press, b"\x1b"),
        || key(KeyCode::Esc, KeyEventKind::Repeat, b"\x1b"),
        || left(9, 16),
        || left(20, 16),
    ] {
        for phase in [Phase::Authenticating, Phase::Verifying, Phase::Failed] {
            let mut shell = shell();
            shell.open_auth_popup(ssh("a"), resolved());
            shell.auth.popup.as_mut().unwrap().phase = phase;
            let outcome = shell.handle_auth_input(vec![
                RawInputEvent::Text("secret".to_string()),
                give_up(),
                RawInputEvent::Text("more".to_string()),
            ]);
            assert_eq!(outcome.actions.len(), 1);
            assert!(matches!(
                outcome.actions[0],
                ClientShellAction::SshAuth(SshAuthCommand::Cancel)
            ));
        }
    }
    // Beside the button, or with another button, it is no giving up.
    let mut shell = shell();
    shell.open_auth_popup(ssh("a"), resolved());
    for event in [
        left(21, 16),
        left(9, 15),
        mouse(MouseEventKind::Down(MouseButton::Right), 9, 16),
        mouse(MouseEventKind::Up(MouseButton::Left), 9, 16),
    ] {
        assert!(shell.handle_auth_input(vec![event]).actions.is_empty());
    }
}

#[test]
fn the_popup_has_its_rectangle_while_it_is_open() {
    let mut shell = shell();
    assert_eq!(shell.auth_popup_rect(80, 24, resolved()), None);
    shell.open_auth_popup(ssh("a"), resolved());
    assert_eq!(
        shell.auth_popup_rect(80, 24, resolved()),
        Some(Rect::new(8, 5, 64, 13))
    );
    assert_eq!(
        shell.auth_popup_rect(80, 24, None),
        Some(Rect::new(0, 0, 80, 24))
    );
}

#[test]
fn status_of_a_machine_is_set_and_read() {
    let mut shell = shell();
    assert_eq!(shell.endpoint_status(&ssh("c")), None);
    shell.set_endpoint_status(&ssh("a"), ClientEndpointStatus::Connected);
    shell.set_endpoint_status(&ssh("c"), ClientEndpointStatus::Connected);
    assert_eq!(
        shell.endpoint_status(&ssh("a")),
        Some(ClientEndpointStatus::Connected)
    );
    assert_eq!(
        shell.endpoint_status(&ssh("b")),
        Some(ClientEndpointStatus::Attention)
    );
    assert_eq!(shell.endpoint_status(&ssh("c")), None);
}
