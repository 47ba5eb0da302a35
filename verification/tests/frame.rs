use auth_client::endpoint::{ClientEndpointId, ClientEndpointStatus};
use auth_client::rect::Rect;
use auth_client::shell::auth::{AuthPresentation, Phase, PopupGeometry};
use auth_client::shell::frame::{place_cursor, popup_title, CursorState, FrameData};
use auth_client::shell::{
    ClientShellConfig, ClientShellEndpoint, ClientShellState, Interaction, ShellHits,
};
use auth_client::style::{Color, Palette};
use ratatui::buffer::{Buffer, Cell, CellDiffOption};
use ratatui::style::{Color as Paint, Modifier, Style};

fn color(name: &str) -> Color {
    Color {
        name: name.to_string(),
    }
}

fn build() -> ClientEndpointId {
    ClientEndpointId::Ssh("build".to_string())
}

fn shell() -> ClientShellState {
    let nowhere = Rect::new(0, 0, 0, 0);
    ClientShellState {
        config: ClientShellConfig {
            palette: Palette {
                text: color("White"),
                panel_bg: color("#102030"),
                accent: color("Cyan"),
                overlay0: color("42"),
                active_row_bg: color("Blue"),
            },
        },
        endpoints: vec![
            ClientShellEndpoint {
                endpoint_id: ClientEndpointId::Local,
                label: "Here".to_string(),
                status: ClientEndpointStatus::Connected,
            },
            ClientShellEndpoint {
                endpoint_id: build(),
                label: "Build".to_string(),
                status: ClientEndpointStatus::Attention,
            },
        ],
        hits: ShellHits {
            machines: vec![],
            popup: None,
            notification_toast: nowhere,
        },
        overlay: None,
        popup_pending: false,
        popup_terminal_id: None,
        visible_endpoint_notice: None,
        visible_notification: None,
        last_composed_size: None,
        interaction: Interaction::cleared(),
        auth: AuthPresentation::default(),
    }
}

fn resolved() -> Option<PopupGeometry> {
    Some(PopupGeometry {
        outer: Rect::new(8, 5, 64, 13),
        inner: Rect::new(9, 6, 62, 11),
    })
}

fn screen() -> ratatui::layout::Rect {
    ratatui::layout::Rect::new(0, 0, 80, 24)
}

/// A frame full of the letter x.
fn frame() -> FrameData {
    let mut cell = Cell::new("x");
    cell.set_style(Style::default().fg(Paint::Red).add_modifier(Modifier::BOLD));
    let buffer = Buffer::filled(screen(), cell);
    let cursor = CursorState {
        x: 3,
        y: 4,
        visible: true,
        shape: 5,
    };
    FrameData::new(buffer, Some(cursor)).unwrap()
}

fn row(frame: &FrameData, y: u16, from: u16, to: u16) -> String {
    (from..to)
        .map(|x| frame.buffer[(x, y)].symbol())
        .collect::<String>()
}

#[test]
fn a_frame_has_a_cell_for_each_position() {
    let mut buffer = Buffer::empty(screen());
    buffer.content.pop();
    assert!(FrameData::new(buffer, None).is_none());
    let mut buffer = Buffer::empty(screen());
    buffer.area.height = 25;
    assert!(FrameData::new(buffer, None).is_none());
    let frame = FrameData::new(Buffer::empty(screen()), None).unwrap();
    assert_eq!(frame.cursor, None);
    assert_eq!(frame.buffer, Buffer::empty(screen()));
}

#[test]
fn without_a_popup_the_frame_stays() {
    let mut shell = shell();
    let mut frame = frame();
    let before = frame.buffer.clone();
    shell.compose_auth(&mut frame, 80, 24, resolved());
    assert_eq!(frame.buffer, before);
    assert_eq!(frame.cursor.unwrap().shape, 5);
}

#[test]
fn a_popup_is_painted_over_the_frame() {
    let mut shell = shell();
    shell.open_auth_popup(build(), None);
    shell.update_auth_popup("Password:\nsecond".to_string(), Some((9, 0)));
    let mut frame = frame();
    let before = frame.buffer.clone();
    shell.compose_auth(&mut frame, 80, 24, resolved());
    // Around the popup nothing changes.
    for y in 0..24 {
        for x in 0..80 {
            if !((8..72).contains(&x) && (5..18).contains(&y)) {
                assert_eq!(frame.buffer[(x, y)], before[(x, y)], "{x}, {y}");
            }
        }
    }
    assert_eq!(
        row(&frame, 5, 8, 72),
        format!("┌ Build — Authentication {}┐", "─".repeat(38))
    );
    assert_eq!(
        row(&frame, 6, 8, 72),
        format!("│Password:{}│", " ".repeat(53))
    );
    assert_eq!(row(&frame, 7, 8, 16), "│second ");
    assert_eq!(row(&frame, 8, 8, 72), format!("│{}│", " ".repeat(62)));
    assert_eq!(
        row(&frame, 15, 9, 71),
        format!("Your input is hidden. Type your code and press Enter.{}", " ".repeat(9))
    );
    assert_eq!(row(&frame, 16, 9, 23), "[Cancel/Esc]  ");
    assert_eq!(row(&frame, 17, 8, 72), format!("└{}┘", "─".repeat(62)));
    // Colours and modifiers.
    let look = |x: u16, y: u16| {
        let cell = &frame.buffer[(x, y)];
        (cell.fg, cell.bg, cell.modifier)
    };
    let panel = Paint::Rgb(0x10, 0x20, 0x30);
    let none = Modifier::empty();
    assert_eq!(look(8, 5), (Paint::Cyan, panel, none));
    assert_eq!(look(9, 6), (Paint::White, panel, none));
    assert_eq!(look(40, 10), (Paint::White, panel, none));
    assert_eq!(look(9, 15), (Paint::Indexed(42), panel, none));
    assert_eq!(look(9, 16), (Paint::Cyan, panel, none));
    assert_eq!(look(0, 0), (Paint::Red, Paint::Reset, Modifier::BOLD));
    // The popup was laid out, and has the cursor.
    let popup = shell.auth.popup.as_ref().unwrap();
    assert_eq!(popup.size, (62, 9));
    assert_eq!(popup.cancel, Rect::new(9, 16, 12, 1));
    assert_eq!(
        frame.cursor,
        Some(CursorState {
            x: 18,
            y: 6,
            visible: true,
            shape: 1
        })
    );
}

#[test]
fn the_hint_is_painted_only_while_authenticating() {
    let mut shell = shell();
    shell.open_auth_popup(build(), resolved());
    shell.auth_popup_verifying();
    let mut first = frame();
    shell.compose_auth(&mut first, 80, 24, resolved());
    assert_eq!(row(&first, 5, 8, 27), "┌ Build — Verifying");
    assert_eq!(row(&first, 6, 9, 31), "Verifying connection… ");
    assert_eq!(row(&first, 15, 9, 71), " ".repeat(62));
    assert_eq!(row(&first, 16, 9, 21), "[Cancel/Esc]");
    assert_eq!(first.cursor, None);

    shell.auth_popup_failed("Denied.".to_string());
    let mut second = frame();
    shell.compose_auth(&mut second, 80, 24, resolved());
    assert_eq!(row(&second, 5, 8, 26), "┌ Build — Failed ─");
    assert_eq!(row(&second, 6, 9, 17), "Denied. ");
    assert_eq!(row(&second, 7, 9, 17), " ".repeat(8));
    assert_eq!(row(&second, 8, 9, 18), "Verifying");
    assert_eq!(row(&second, 15, 9, 71), " ".repeat(62));
}

#[test]
fn a_wrapped_hint_takes_several_rows() {
    let mut shell = shell();
    shell.open_auth_popup(build(), None);
    let narrow = Some(PopupGeometry {
        outer: Rect::new(0, 0, 22, 12),
        inner: Rect::new(1, 1, 20, 10),
    });
    let mut frame = frame();
    shell.compose_auth(&mut frame, 80, 24, narrow);
    assert_eq!(row(&frame, 6, 1, 21), "Your input is       ");
    assert_eq!(row(&frame, 7, 1, 21), "hidden. Type your   ");
    assert_eq!(row(&frame, 8, 1, 21), "code and press      ");
    assert_eq!(row(&frame, 9, 1, 21), "Enter.              ");
    assert_eq!(row(&frame, 10, 1, 21), "[Cancel/Esc]        ");
}

#[test]
fn a_popup_without_room_takes_the_screen() {
    let mut shell = shell();
    shell.open_auth_popup(build(), resolved());
    shell.update_auth_popup("Password:".to_string(), Some((0, 0)));
    let mut frame = frame();
    shell.compose_auth(&mut frame, 80, 24, None);
    let popup = shell.auth.popup.as_ref().unwrap();
    assert_eq!(popup.size, (80, 24));
    assert_eq!(popup.cancel, Rect::new(0, 0, 0, 0));
    // The text lies over the border and its title.
    assert_eq!(row(&frame, 0, 0, 25), "Password: Authentication ");
    assert_eq!(
        frame.cursor.map(|cursor| (cursor.x, cursor.y)),
        Some((0, 0))
    );
}

#[test]
fn what_lies_beyond_the_frame_is_not_painted() {
    let mut shell = shell();
    shell.open_auth_popup(build(), resolved());
    let far = Some(PopupGeometry {
        outer: Rect::new(70, 20, 64, 13),
        inner: Rect::new(71, 21, 62, 11),
    });
    let mut frame = frame();
    shell.compose_auth(&mut frame, 200, 100, far);
    // The border is that of the part within the frame.
    assert_eq!(row(&frame, 20, 69, 80), "x┌ Build —┐");
    assert_eq!(row(&frame, 23, 69, 80), "x└────────┘");
    assert_eq!(row(&frame, 19, 69, 80), "x".repeat(11));
}

#[test]
fn cells_around_the_popup_keep_all_they_have() {
    let mut shell = shell();
    shell.open_auth_popup(build(), resolved());
    let mut cell = Cell::new("x");
    cell.set_style(Style::default().underline_color(Paint::Green));
    cell.set_diff_option(CellDiffOption::AlwaysUpdate);
    let buffer = Buffer::filled(screen(), cell.clone());
    let mut frame = FrameData::new(buffer, None).unwrap();
    shell.compose_auth(&mut frame, 80, 24, resolved());
    assert_eq!(frame.buffer[(7, 5)], cell);
    assert_eq!(frame.buffer[(7, 5)].diff_option, CellDiffOption::AlwaysUpdate);
    // Within it they were made blank first.
    let inside = &frame.buffer[(40, 10)];
    assert_eq!(inside.underline_color, Paint::Reset);
    assert_eq!(inside.diff_option, CellDiffOption::None);
}

#[test]
fn a_frame_may_be_very_wide() {
    let mut shell = shell();
    shell.open_auth_popup(build(), None);
    shell.update_auth_popup("Password:".to_string(), None);
    assert!(shell.can_compose_auth(40_000, None));
    let area = ratatui::layout::Rect::new(0, 0, 40_000, 2);
    let mut frame = FrameData::new(Buffer::empty(area), None).unwrap();
    shell.compose_auth(&mut frame, 40_000, 2, None);
    assert_eq!(row(&frame, 0, 0, 9), "Password:");
    // So are long lines, as long as their columns can be counted.
    shell.update_auth_popup("x".repeat(20_000), None);
    assert!(shell.can_compose_auth(40_000, None));
    let mut frame = FrameData::new(Buffer::empty(area), None).unwrap();
    shell.compose_auth(&mut frame, 40_000, 2, None);
    assert_eq!(row(&frame, 0, 0, 20_000), "x".repeat(20_000));
    for (line, fits) in [
        ("x".repeat(65_535), true),
        ("x".repeat(65_536), false),
        ("宽".repeat(32_767), true),
        ("宽".repeat(32_768), false),
        ("\u{17d8}".repeat(21_845), true),
        ("\u{17d8}".repeat(21_846), false),
    ] {
        shell.update_auth_popup(format!("a\n{line}\nb"), None);
        assert_eq!(shell.can_compose_auth(40_000, None), fits);
        assert!(shell.can_compose_auth(0x7fff, None));
        assert!(shell.can_compose_auth(40_000, resolved()));
    }
    shell.close_auth_popup();
    assert!(shell.can_compose_auth(40_000, None));
}

#[test]
fn a_label_is_filtered_and_may_be_missing() {
    assert_eq!(
        popup_title("Bu\u{1b}ild", Phase::Authenticating),
        " Build — Authentication "
    );
    assert_eq!(popup_title("", Phase::Verifying), "  — Verifying ");
    assert_eq!(popup_title("a", Phase::Failed), " a — Failed ");
    let mut shell = shell();
    shell.open_auth_popup(ClientEndpointId::Ssh("gone".to_string()), resolved());
    let mut frame = frame();
    shell.compose_auth(&mut frame, 80, 24, resolved());
    assert_eq!(row(&frame, 5, 8, 30), "┌ SSH — Authentication");
}

#[test]
fn the_cursor_is_placed_within_the_terminal() {
    let terminal = Rect::new(9, 6, 62, 9);
    let at = |x: u16, y: u16| {
        Some(CursorState {
            x,
            y,
            visible: true,
            shape: 1,
        })
    };
    assert_eq!(place_cursor(Some((0, 0)), terminal), at(9, 6));
    assert_eq!(place_cursor(Some((61, 8)), terminal), at(70, 14));
    assert_eq!(place_cursor(Some((62, 8)), terminal), None);
    assert_eq!(place_cursor(Some((61, 9)), terminal), None);
    assert_eq!(place_cursor(None, terminal), None);
}
