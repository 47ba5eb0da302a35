//! Client-private authentication presentation: the badge that asks for authentication, the
//! popup, and the input that goes to it. It owns no terminal.
use vstd::prelude::*;

use crate::endpoint::{id_view, ClientEndpointId, ClientEndpointStatus, EndpointIdView};
use crate::input::{
    all_typed, KeyCode, KeyEventKind, MouseButton, MouseEventKind, MouseInput, RawInputEvent,
};
use crate::rect::{
    add_capped, at_least_one, contains, max_one, min_u16, sub_floored, Rect,
};
use crate::shell::frame::{is_plain, line_count, wrapped_line_count, LONGEST_WRAPPED};
use crate::shell::{
    status_of, ActionView, ClientShellAction, ClientShellEndpoint, ClientShellInput,
    ClientShellState, InputView, Interaction, MachineHit,
};
use crate::style::{Palette, Style, BOLD, REVERSED};
use crate::text::{
    failure_chars, failure_text, is_safe, law_failure_text_safe, law_safe_text, safe_chars,
    safe_text,
};

verus! {

pub const HIDDEN_INPUT_HINT: &'static str = "Your input is hidden. Type your code and press Enter.";

pub(crate) proof fn lemma_hint_is_plain()
    ensures
        HIDDEN_INPUT_HINT@.len() <= LONGEST_WRAPPED,
        is_plain(HIDDEN_INPUT_HINT@),
{
    reveal_strlit("Your input is hidden. Type your code and press Enter.");
}

/// What the shell asks of an authentication attempt.
pub enum SshAuthCommand {
    Start { endpoint_id: ClientEndpointId, cols: u16, rows: u16 },
    Input(Vec<u8>),
    Cancel,
}

pub enum SshAuthCommandView {
    Start { endpoint_id: EndpointIdView, cols: u16, rows: u16 },
    Input(Seq<u8>),
    Cancel,
}

impl View for SshAuthCommand {
    type V = SshAuthCommandView;

    open spec fn view(&self) -> SshAuthCommandView {
        match self {
            SshAuthCommand::Start { endpoint_id, cols, rows } => SshAuthCommandView::Start {
                endpoint_id: endpoint_id@,
                cols: *cols,
                rows: *rows,
            },
            SshAuthCommand::Input(bytes) => SshAuthCommandView::Input(bytes@),
            SshAuthCommand::Cancel => SshAuthCommandView::Cancel,
        }
    }
}

impl SshAuthCommandView {
    /// What may be logged of a command.
    pub open spec fn log_text(self) -> Seq<char> {
        match self {
            SshAuthCommandView::Start { .. } => "SshAuth::Start"@,
            SshAuthCommandView::Input(_) => "SshAuth::Input([redacted])"@,
            SshAuthCommandView::Cancel => "SshAuth::Cancel"@,
        }
    }
}

impl SshAuthCommand {
    /// What to log of the command: never the input.
    pub fn debug_text(&self) -> (text: &'static str)
        ensures
            text@ == self@.log_text(),
    {
        match self {
            SshAuthCommand::Start { .. } => "SshAuth::Start",
            SshAuthCommand::Input(_) => "SshAuth::Input([redacted])",
            SshAuthCommand::Cancel => "SshAuth::Cancel",
        }
    }
}

/// The log tells nothing of what was typed.
pub proof fn law_log_hides_input(typed: Seq<u8>, other: Seq<u8>)
    ensures
        SshAuthCommandView::Input(typed).log_text() == SshAuthCommandView::Input(other).log_text(),
{
}

/// How far an authentication popup has come.
#[derive(Clone, Copy, Debug, PartialEq, Eq, Structural)]
pub enum Phase {
    Authenticating,
    Verifying,
    Failed,
}

pub struct AuthPopup {
    pub endpoint: ClientEndpointId,
    pub text: String,
    pub cursor: Option<(u16, u16)>,
    pub phase: Phase,
    pub size: (u16, u16),
    pub cancel: Rect,
}

#[verifier::ext_equal]
pub struct PopupView {
    pub endpoint: EndpointIdView,
    pub text: Seq<char>,
    pub cursor: Option<(u16, u16)>,
    pub phase: Phase,
    pub size: (u16, u16),
    pub cancel: Rect,
}

impl View for AuthPopup {
    type V = PopupView;

    open spec fn view(&self) -> PopupView {
        PopupView {
            endpoint: self.endpoint@,
            text: self.text@,
            cursor: self.cursor,
            phase: self.phase,
            size: self.size,
            cancel: self.cancel,
        }
    }
}

impl PopupView {
    /// The popup shows safe text only and has room for a character.
    pub open spec fn well_formed(self) -> bool {
        is_safe(self.text) && self.size.0 >= 1 && self.size.1 >= 1
    }

    /// The popup once the terminal shows `text`.
    pub open spec fn updated(self, text: Seq<char>, cursor: Option<(u16, u16)>) -> PopupView {
        if self.phase == Phase::Authenticating {
            PopupView { text: safe_chars(text), cursor, ..self }
        } else {
            self
        }
    }

    pub open spec fn verifying(self) -> PopupView {
        PopupView {
            phase: Phase::Verifying,
            text: "Verifying connection…"@,
            cursor: None,
            ..self
        }
    }

    /// The popup once authentication failed for the reason `message`.
    pub open spec fn failed(self, message: Seq<char>) -> PopupView {
        PopupView {
            phase: Phase::Failed,
            text: failure_chars(message, self.text, self.size.1),
            cursor: None,
            ..self
        }
    }

    /// The popup once it was laid out again.
    pub open spec fn resized(self, terminal: Rect, cancel: Rect) -> PopupView {
        PopupView {
            size: (at_least_one(terminal.width), at_least_one(terminal.height)),
            cancel,
            ..self
        }
    }
}

/// The badges and the popup.
pub struct AuthPresentation {
    /// The machines that ask for authentication.
    pub required: Vec<ClientEndpointId>,
    /// The badge below the pointer.
    pub hover: Option<ClientEndpointId>,
    pub popup: Option<AuthPopup>,
}

#[verifier::ext_equal]
pub struct AuthView {
    pub required: Set<EndpointIdView>,
    pub hover: Option<EndpointIdView>,
    pub popup: Option<PopupView>,
}

/// One of `ids` is `id`.
pub open spec fn lists(ids: Seq<ClientEndpointId>, id: EndpointIdView) -> bool {
    exists|i: int| 0 <= i < ids.len() && #[trigger] ids[i]@ == id
}

impl View for AuthPresentation {
    type V = AuthView;

    open spec fn view(&self) -> AuthView {
        AuthView {
            required: Set::new(|id: EndpointIdView| lists(self.required@, id)),
            hover: id_view(self.hover),
            popup: match self.popup {
                Some(popup) => Some(popup@),
                None => None,
            },
        }
    }
}

impl AuthView {
    /// No badge, no popup.
    pub open spec fn nothing() -> AuthView {
        AuthView { required: Set::empty(), hover: None, popup: None }
    }

    pub open spec fn with_popup(self, popup: Option<PopupView>) -> AuthView {
        AuthView { popup, ..self }
    }

    pub open spec fn updated(self, text: Seq<char>, cursor: Option<(u16, u16)>) -> AuthView {
        match self.popup {
            Some(popup) => self.with_popup(Some(popup.updated(text, cursor))),
            None => self,
        }
    }

    pub open spec fn verifying(self) -> AuthView {
        match self.popup {
            Some(popup) => self.with_popup(Some(popup.verifying())),
            None => self,
        }
    }

    pub open spec fn failed(self, message: Seq<char>) -> AuthView {
        match self.popup {
            Some(popup) => self.with_popup(Some(popup.failed(message))),
            None => self,
        }
    }
}

impl Default for AuthPresentation {
    fn default() -> (auth: Self)
        ensures
            auth.well_formed(),
            auth@ == AuthView::nothing(),
    {
        let auth = AuthPresentation { required: Vec::new(), hover: None, popup: None };
        assert(auth@.required =~= Set::empty());
        auth
    }
}

impl AuthPresentation {
    /// No machine is listed twice, and the popup is a proper one.
    pub open spec fn well_formed(&self) -> bool {
        &&& forall|i: int, j: int|
            0 <= i < self.required.len() && 0 <= j < self.required.len() && (
            #[trigger] self.required@[i])@ == (#[trigger] self.required@[j])@ ==> i == j
        &&& self.popup matches Some(popup) ==> popup@.well_formed()
    }

    /// The machine is a remote one that wants attention and asks for authentication.
    pub open spec fn asks(&self, endpoint: &ClientShellEndpoint) -> bool {
        &&& endpoint.endpoint_id@ != EndpointIdView::Local
        &&& endpoint.status == ClientEndpointStatus::Attention
        &&& self@.required.contains(endpoint.endpoint_id@)
    }

    fn position(&self, id: &ClientEndpointId) -> (found: Option<usize>)
        ensures
            match found {
                Some(i) => i < self.required.len() && self.required@[i as int]@ == id@,
                None => !self@.required.contains(id@),
            },
            found is Some == self@.required.contains(id@),
    {
        let mut i: usize = 0;
        while i < self.required.len()
            invariant
                i <= self.required.len(),
                forall|j: int| 0 <= j < i ==> (#[trigger] self.required@[j])@ != id@,
            decreases self.required.len() - i,
        {
            if self.required[i].same_as(id) {
                assert(lists(self.required@, id@));
                return Some(i);
            }
            i += 1;
        }
        None
    }

    pub fn required_for(&self, endpoint: &ClientShellEndpoint) -> (required: bool)
        ensures
            required == self.asks(endpoint),
    {
        !endpoint.endpoint_id.is_local() && endpoint.status == ClientEndpointStatus::Attention
            && self.position(&endpoint.endpoint_id).is_some()
    }

    /// The style of a machine's badge: bold where it asks for authentication, and highlighted
    /// where the pointer is on it too.
    pub fn badge_style(
        &self,
        endpoint: &ClientShellEndpoint,
        palette: &Palette,
        style: Style,
    ) -> (badge: Style)
        ensures
            badge == if !self.asks(endpoint) {
                style
            } else if self@.hover == Some(endpoint.endpoint_id@) {
                style.plus(BOLD).on(palette.active_row_bg).plus(REVERSED)
            } else {
                style.plus(BOLD)
            },
    {
        if !self.required_for(endpoint) {
            return style;
        }
        let style = style.add_modifier(BOLD);
        let hovered = match &self.hover {
            Some(id) => id.same_as(&endpoint.endpoint_id),
            None => false,
        };
        if hovered {
            style.bg(palette.active_row_bg.clone()).add_modifier(REVERSED)
        } else {
            style
        }
    }
}

/// The extent that a popup asks for.
#[derive(Clone, Copy, Debug, PartialEq, Eq, Structural)]
pub enum PopupSize {
    Percent(u16),
}

/// What to resolve into the rectangles of a popup.
#[derive(Clone, Copy, Debug, PartialEq, Eq, Structural)]
pub struct PopupRequest {
    pub width: PopupSize,
    pub height: PopupSize,
    pub area: Rect,
}

/// A popup with its border, and within it.
#[derive(Clone, Copy, Debug, PartialEq, Eq, Structural)]
pub struct PopupGeometry {
    pub outer: Rect,
    pub inner: Rect,
}

/// All of a screen of `cols` columns and `rows` rows.
pub open spec fn screen(cols: u16, rows: u16) -> Rect {
    Rect { x: 0, y: 0, width: cols, height: rows }
}

/// The request for an authentication popup on a screen of `cols` columns and `rows` rows.
pub fn popup_request(cols: u16, rows: u16) -> (request: PopupRequest)
    ensures
        request == (PopupRequest {
            width: PopupSize::Percent(80),
            height: PopupSize::Percent(55),
            area: screen(cols, rows),
        }),
{
    PopupRequest {
        width: PopupSize::Percent(80),
        height: PopupSize::Percent(55),
        area: Rect { x: 0, y: 0, width: cols, height: rows },
    }
}

/// The rows of the hint: what its lines take, but two rows are left for the rest.
pub open spec fn hint_rows(inner: Rect, hint_lines: nat) -> u16 {
    if hint_lines <= sub_floored(inner.height, 2) {
        hint_lines as u16
    } else {
        sub_floored(inner.height, 2)
    }
}

/// The popup, its terminal, and its cancel button: within `resolved`, from the top down, the
/// terminal, a hint of `hint_lines` lines, and a row for the button. Without `resolved` the
/// terminal takes the whole screen.
pub open spec fn layout(
    cols: u16,
    rows: u16,
    resolved: Option<PopupGeometry>,
    hint_lines: nat,
) -> (Rect, Rect, Rect) {
    match resolved {
        None => (screen(cols, rows), screen(cols, rows), Rect::zero()),
        Some(g) => (
            g.outer,
            Rect {
                height: sub_floored(g.inner.height, (1 + hint_rows(g.inner, hint_lines)) as u16),
                ..g.inner
            },
            Rect::cut(
                g.inner.x,
                sub_floored(add_capped(g.inner.y, g.inner.height), 1),
                min_u16(g.inner.width, 12),
                1,
            ),
        ),
    }
}

/// The layout with the hint wrapped to the popup.
pub open spec fn auth_layout(
    cols: u16,
    rows: u16,
    resolved: Option<PopupGeometry>,
) -> (Rect, Rect, Rect) {
    let hint_lines = match resolved {
        Some(g) => wrapped_line_count(HIDDEN_INPUT_HINT@, g.inner.width),
        None => 0,
    };
    layout(cols, rows, resolved, hint_lines)
}

/// The popup, its terminal and its cancel button, for a hint of `hint_lines` lines.
pub fn geometry_with_hint(
    cols: u16,
    rows: u16,
    resolved: Option<PopupGeometry>,
    hint_lines: usize,
) -> (rects: (Rect, Rect, Rect))
    ensures
        rects == layout(cols, rows, resolved, hint_lines as nat),
{
    let area = Rect { x: 0, y: 0, width: cols, height: rows };
    match resolved {
        None => (area, area, Rect { x: 0, y: 0, width: 0, height: 0 }),
        Some(g) => {
            let room: u16 = g.inner.height.saturating_sub(2);
            let hint: u16 = if hint_lines <= room as usize {
                hint_lines as u16
            } else {
                room
            };
            let terminal = Rect {
                x: g.inner.x,
                y: g.inner.y,
                width: g.inner.width,
                height: g.inner.height.saturating_sub(1 + hint),
            };
            let width: u16 = if g.inner.width <= 12 {
                g.inner.width
            } else {
                12
            };
            let cancel = Rect::new(g.inner.x, g.inner.bottom().saturating_sub(1), width, 1);
            (g.outer, terminal, cancel)
        },
    }
}

/// The popup, its terminal and its cancel button on a screen of `cols` columns and `rows` rows.
/// `resolved` is what the popup's request resolves to on that screen, if it has room there.
pub fn geometry(cols: u16, rows: u16, resolved: Option<PopupGeometry>) -> (rects: (
    Rect,
    Rect,
    Rect,
))
    ensures
        rects == auth_layout(cols, rows, resolved),
{
    proof {
        lemma_hint_is_plain();
    }
    let hint_lines: usize = match resolved {
        Some(g) => line_count(HIDDEN_INPUT_HINT, g.inner.width),
        None => 0,
    };
    geometry_with_hint(cols, rows, resolved, hint_lines)
}

/// In a popup of two rows or more, the terminal, the hint and the cancel button fill the rows
/// from top to bottom without overlap: the terminal has a row at least, the hint ends where the
/// button's row begins, and the button has the last row.
pub proof fn law_layout_stacks(
    cols: u16,
    rows: u16,
    resolved: PopupGeometry,
    hint_lines: nat,
)
    requires
        resolved.inner.fits(),
        resolved.inner.height >= 2,
    ensures
        ({
            let (outer, terminal, cancel) = layout(cols, rows, Some(resolved), hint_lines);
            let inner = resolved.inner;
            &&& outer == resolved.outer
            &&& terminal.x == inner.x && terminal.width == inner.width
            &&& terminal.y == inner.y && terminal.height >= 1
            &&& terminal.y + terminal.height + hint_rows(inner, hint_lines) == cancel.y
            &&& cancel.y + cancel.height == inner.y + inner.height
            &&& cancel.height == 1
            &&& cancel.x == inner.x && cancel.width == min_u16(inner.width, 12)
        }),
{
}

/// The event gives up the authentication: Esc, or a click on the button `cancel`.
pub open spec fn cancels(event: &RawInputEvent, cancel: Rect) -> bool {
    match event {
        RawInputEvent::Key(key) => key.code == KeyCode::Esc && key.kind != KeyEventKind::Release,
        RawInputEvent::Mouse(mouse) => mouse.kind == MouseEventKind::Down(MouseButton::Left)
            && cancel.holds((mouse.column, mouse.row)),
        _ => false,
    }
}

/// One of the events gives up the authentication.
pub open spec fn some_cancels(events: Seq<RawInputEvent>, cancel: Rect) -> bool {
    exists|i: int| 0 <= i < events.len() && cancels(#[trigger] &events[i], cancel)
}

/// What comes of a batch of events while `popup` is open: it is given up if one of the events
/// does so; else what was typed goes to the attempt, if it still takes input.
pub open spec fn auth_input(popup: PopupView, events: Seq<RawInputEvent>) -> InputView {
    if some_cancels(events, popup.cancel) {
        InputView {
            actions: seq![ActionView::SshAuth(SshAuthCommandView::Cancel)],
            repaint: false,
        }
    } else if popup.phase == Phase::Authenticating && all_typed(events).len() > 0 {
        InputView {
            actions: seq![ActionView::SshAuth(SshAuthCommandView::Input(all_typed(events)))],
            repaint: false,
        }
    } else {
        InputView::nothing()
    }
}

fn is_cancel(event: &RawInputEvent, cancel: Rect) -> (cancelled: bool)
    ensures
        cancelled == cancels(event, cancel),
{
    match event {
        RawInputEvent::Key(key) => key.code == KeyCode::Esc && key.kind != KeyEventKind::Release,
        RawInputEvent::Mouse(mouse) => mouse.kind == MouseEventKind::Down(MouseButton::Left)
            && contains(cancel, (mouse.column, mouse.row)),
        _ => false,
    }
}

impl ClientShellState {
    /// Only the authentication presentation differs.
    pub open spec fn same_but_auth(self, other: ClientShellState) -> bool {
        self == (ClientShellState { auth: self.auth, ..other })
    }

    pub fn set_endpoint_auth_required(&mut self, id: &ClientEndpointId, required: bool)
        requires
            old(self).auth.well_formed(),
        ensures
            final(self).auth.well_formed(),
            final(self).same_but_auth(*old(self)),
            final(self).auth@ == (AuthView {
                required: if required {
                    old(self).auth@.required.insert(id@)
                } else {
                    old(self).auth@.required.remove(id@)
                },
                ..old(self).auth@
            }),
    {
        let ghost before = self.auth.required@;
        let found = self.auth.position(id);
        if required {
            if found.is_none() {
                self.auth.required.push(id.clone());
            }
        } else if let Some(i) = found {
            let _ = self.auth.required.remove(i);
        }
        proof {
            let after = self.auth.required@;
            assert forall|other: EndpointIdView| lists(after, other) == if required {
                lists(before, other) || other == id@
            } else {
                lists(before, other) && other != id@
            } by {
                if lists(before, other) {
                    let j = choose|j: int| 0 <= j < before.len() && #[trigger] before[j]@ == other;
                    if required {
                        assert(after[j] == before[j]);
                    } else if found is Some && other != id@ {
                        let i = found->0 as int;
                        assert(after[if j < i { j } else { j - 1 }] == before[j]);
                    }
                }
                if lists(after, other) {
                    let j = choose|j: int| 0 <= j < after.len() && #[trigger] after[j]@ == other;
                    if required {
                        if j < before.len() {
                            assert(after[j] == before[j]);
                        }
                    } else if found is Some {
                        let i = found->0 as int;
                        assert(after[j] == before[if j < i { j } else { j + 1 }]);
                        if other == id@ {
                            assert(before[i]@ == before[if j < i { j } else { j + 1 }]@);
                        }
                    }
                }
                if required && other == id@ {
                    if found is Some {
                        assert(after[found->0 as int]@ == id@);
                    } else {
                        assert(after[after.len() - 1]@ == id@);
                    }
                }
            }
            assert(self.auth@.required =~= if required {
                old(self).auth@.required.insert(id@)
            } else {
                old(self).auth@.required.remove(id@)
            });
        }
    }

    /// The machine that the popup is for.
    pub fn auth_popup_endpoint(&self) -> (endpoint: Option<&ClientEndpointId>)
        ensures
            match endpoint {
                Some(id) => self.auth@.popup matches Some(popup) && popup.endpoint == id@,
                None => self.auth@.popup is None,
            },
    {
        match &self.auth.popup {
            Some(popup) => Some(&popup.endpoint),
            None => None,
        }
    }

    /// Columns and rows of the popup's terminal.
    pub fn auth_popup_size(&self) -> (size: Option<(u16, u16)>)
        ensures
            size == match self.auth@.popup {
                Some(popup) => Some(popup.size),
                None => None,
            },
    {
        match &self.auth.popup {
            Some(popup) => Some(popup.size),
            None => None,
        }
    }

    /// Shows what the terminal shows, as long as authentication goes on.
    pub fn update_auth_popup(&mut self, text: String, cursor: Option<(u16, u16)>)
        requires
            old(self).auth.well_formed(),
        ensures
            final(self).auth.well_formed(),
            final(self).same_but_auth(*old(self)),
            final(self).auth@ == old(self).auth@.updated(text@, cursor),
    {
        proof {
            law_safe_text(text@);
        }
        if let Some(popup) = &mut self.auth.popup {
            if popup.phase == Phase::Authenticating {
                popup.text = safe_text(text);
                popup.cursor = cursor;
            }
        }
    }

    pub fn auth_popup_verifying(&mut self)
        requires
            old(self).auth.well_formed(),
        ensures
            final(self).auth.well_formed(),
            final(self).same_but_auth(*old(self)),
            final(self).auth@ == old(self).auth@.verifying(),
    {
        proof {
            reveal_strlit("Verifying connection…");
        }
        if let Some(popup) = &mut self.auth.popup {
            popup.phase = Phase::Verifying;
            popup.text = "Verifying connection…".to_string();
            popup.cursor = None;
        }
    }

    /// Shows why authentication failed, above the last output.
    pub fn auth_popup_failed(&mut self, message: String)
        requires
            old(self).auth.well_formed(),
        ensures
            final(self).auth.well_formed(),
            final(self).same_but_auth(*old(self)),
            final(self).auth@ == old(self).auth@.failed(message@),
    {
        proof {
            if let Some(popup) = self.auth@.popup {
                law_failure_text_safe(message@, popup.text, popup.size.1);
            }
        }
        if let Some(popup) = &mut self.auth.popup {
            popup.phase = Phase::Failed;
            popup.text = failure_text(message, popup.text.as_str(), popup.size.1);
            popup.cursor = None;
        }
    }

    pub fn close_auth_popup(&mut self)
        requires
            old(self).auth.well_formed(),
        ensures
            final(self).auth.well_formed(),
            final(self).same_but_auth(*old(self)),
            final(self).auth@ == old(self).auth@.with_popup(None),
    {
        self.auth.popup = None;
    }

    /// The badge of `hit` asks for authentication.
    pub open spec fn offers(&self, hit: &MachineHit) -> bool {
        &&& hit.endpoint_id@ != EndpointIdView::Local
        &&& self.auth@.required.contains(hit.endpoint_id@)
        &&& status_of(self.endpoints@, hit.endpoint_id@) == Some(ClientEndpointStatus::Attention)
        &&& hit.rect.width != 0
    }

    /// The badges that ask for authentication, in the order of the machines on the screen.
    pub open spec fn badges(&self) -> Seq<(Rect, EndpointIdView)> {
        self.hits.machines@.filter(|hit: MachineHit| self.offers(&hit)).map_values(
            |hit: MachineHit| (hit.status_badge, hit.endpoint_id@),
        )
    }

    pub fn auth_badges(&self) -> (badges: Vec<(Rect, &ClientEndpointId)>)
        ensures
            badges@.map_values(|badge: (Rect, &ClientEndpointId)| (badge.0, badge.1@))
                == self.badges(),
    {
        let mut badges: Vec<(Rect, &ClientEndpointId)> = Vec::new();
        let ghost offered = |hit: MachineHit| self.offers(&hit);
        let ghost as_badge = |hit: MachineHit| (hit.status_badge, hit.endpoint_id@);
        let ghost as_view = |badge: (Rect, &ClientEndpointId)| (badge.0, badge.1@);
        let mut i: usize = 0;
        while i < self.hits.machines.len()
            invariant
                i <= self.hits.machines.len(),
                offered == (|hit: MachineHit| self.offers(&hit)),
                as_badge == (|hit: MachineHit| (hit.status_badge, hit.endpoint_id@)),
                as_view == (|badge: (Rect, &ClientEndpointId)| (badge.0, badge.1@)),
                badges@.map_values(as_view) == self.hits.machines@.take(i as int).filter(
                    offered,
                ).map_values(as_badge),
            decreases self.hits.machines.len() - i,
        {
            let hit = &self.hits.machines[i];
            let ghost seen = self.hits.machines@.take(i as int);
            let ghost before = badges@;
            let wants_attention = match self.endpoint_status(&hit.endpoint_id) {
                Some(status) => status == ClientEndpointStatus::Attention,
                None => false,
            };
            let offer = !hit.endpoint_id.is_local() && self.auth.position(
                &hit.endpoint_id,
            ).is_some() && wants_attention && hit.rect.width != 0;
            if offer {
                badges.push((hit.status_badge, &hit.endpoint_id));
            }
            proof {
                assert(self.hits.machines@.take(i + 1) =~= seen.push(*hit));
                seen.lemma_filter_push(*hit, offered);
                assert(offer == self.offers(hit));
                if offer {
                    assert(badges@.map_values(as_view) =~= before.map_values(as_view).push(
                        as_badge(*hit),
                    ));
                    assert(seen.filter(offered).push(*hit).map_values(as_badge) =~= seen.filter(
                        offered,
                    ).map_values(as_badge).push(as_badge(*hit)));
                }
            }
            i += 1;
        }
        assert(self.hits.machines@.take(i as int) =~= self.hits.machines@);
        badges
    }

    /// The screen that a popup opens on: the one composed last, or the usual one before any.
    pub open spec fn popup_screen(&self) -> (u16, u16) {
        match self.last_composed_size {
            Some(size) => size,
            None => (80, 24),
        }
    }

    /// Columns and rows of the screen that a popup opens on.
    pub fn auth_popup_screen(&self) -> (size: (u16, u16))
        ensures
            size == self.popup_screen(),
    {
        match self.last_composed_size {
            Some(size) => size,
            None => (80, 24),
        }
    }

    /// The popup for `endpoint` as it opens.
    pub open spec fn fresh_popup(
        &self,
        endpoint: EndpointIdView,
        resolved: Option<PopupGeometry>,
    ) -> PopupView {
        let (cols, rows) = self.popup_screen();
        let (_, terminal, cancel) = auth_layout(cols, rows, resolved);
        PopupView {
            endpoint,
            text: seq![],
            cursor: None,
            phase: Phase::Authenticating,
            size: (at_least_one(terminal.width), at_least_one(terminal.height)),
            cancel,
        }
    }

    /// This shell is `other` once the popup for `endpoint` was opened on it.
    pub open spec fn opened(
        self,
        other: ClientShellState,
        endpoint: EndpointIdView,
        resolved: Option<PopupGeometry>,
    ) -> bool {
        &&& self == (ClientShellState {
            interaction: Interaction::none(),
            auth: self.auth,
            ..other
        })
        &&& self.auth@ == (AuthView {
            hover: None,
            popup: Some(other.fresh_popup(endpoint, resolved)),
            ..other.auth@
        })
    }

    pub fn open_auth_popup_for_test(
        &mut self,
        endpoint: ClientEndpointId,
        resolved: Option<PopupGeometry>,
    )
        requires
            old(self).auth.well_formed(),
        ensures
            final(self).auth.well_formed(),
            final(self).opened(*old(self), endpoint@, resolved),
    {
        self.open_auth_popup(endpoint, resolved);
    }

    /// Opens the popup for `endpoint`, and ends whatever else the user was in the middle of.
    /// `resolved` is what the popup's request resolves to on the screen that it opens on.
    pub fn open_auth_popup(
        &mut self,
        endpoint: ClientEndpointId,
        resolved: Option<PopupGeometry>,
    )
        requires
            old(self).auth.well_formed(),
        ensures
            final(self).auth.well_formed(),
            final(self).opened(*old(self), endpoint@, resolved),
    {
        self.interaction = Interaction::cleared();
        self.auth.hover = None;
        let (cols, rows) = self.auth_popup_screen();
        let (_, inner, cancel) = geometry(cols, rows, resolved);
        self.auth.popup = Some(
            AuthPopup {
                endpoint,
                text: String::new(),
                cursor: None,
                phase: Phase::Authenticating,
                size: (max_one(inner.width), max_one(inner.height)),
                cancel,
            },
        );
    }

    /// Something else lies over the badges at `point`.
    pub open spec fn covered(&self, point: (u16, u16)) -> bool {
        ||| self.overlay is Some
        ||| self.popup_pending
        ||| self.popup_terminal_id is Some
        ||| self.hits.popup is Some
        ||| (self.visible_endpoint_notice is Some || self.visible_notification is Some)
            && self.hits.notification_toast.holds(point)
    }

    /// The machine whose badge asks for authentication and lies at `point`: the first one.
    pub open spec fn badge_at(&self, point: (u16, u16)) -> Option<EndpointIdView> {
        first_at(self.badges(), point)
    }

    fn find_badge(&self, point: (u16, u16)) -> (found: Option<ClientEndpointId>)
        ensures
            id_view(found) == self.badge_at(point),
    {
        let badges = self.auth_badges();
        let ghost viewed = self.badges();
        let mut i: usize = 0;
        assert(viewed.skip(0) =~= viewed);
        while i < badges.len()
            invariant
                i <= badges.len(),
                viewed == self.badges(),
                viewed == badges@.map_values(
                    |badge: (Rect, &ClientEndpointId)| (badge.0, badge.1@),
                ),
                first_at(viewed.skip(i as int), point) == first_at(viewed, point),
            decreases badges.len() - i,
        {
            let badge = badges[i];
            assert(viewed.skip(i as int)[0] == (badge.0, badge.1@));
            if contains(badge.0, point) {
                return Some(badge.1.clone());
            }
            assert(viewed.skip(i as int).drop_first() =~= viewed.skip(i + 1));
            i += 1;
        }
        None
    }

    /// Handles a mouse event over the badges: highlights the one below the pointer, and opens
    /// the popup on a click. Tells whether it did: the rest of the input batch is then consumed.
    /// `resolved` is what the popup's request resolves to on the screen that it would open on.
    pub fn handle_auth_badge_event(
        &mut self,
        event: &RawInputEvent,
        outcome: &mut ClientShellInput,
        resolved: Option<PopupGeometry>,
    ) -> (opened: bool)
        requires
            old(self).auth.well_formed(),
        ensures
            final(self).auth.well_formed(),
            match *event {
                RawInputEvent::Mouse(mouse) => badge_event(
                    *old(self),
                    *final(self),
                    old(outcome)@,
                    final(outcome)@,
                    mouse,
                    resolved,
                    opened,
                ),
                _ => !opened && *final(self) == *old(self) && final(outcome)@ == old(outcome)@,
            },
    {
        let mouse = match event {
            RawInputEvent::Mouse(mouse) => mouse,
            _ => {
                return false;
            },
        };
        let point = (mouse.column, mouse.row);
        if self.overlay.is_some() || self.popup_pending || self.popup_terminal_id.is_some()
            || self.hits.popup.is_some() || ((self.visible_endpoint_notice.is_some()
            || self.visible_notification.is_some()) && contains(
            self.hits.notification_toast,
            point,
        )) {
            let hovered = self.auth.hover.take();
            if hovered.is_some() {
                outcome.repaint = true;
            }
            return false;
        }
        let badge = self.find_badge(point);
        if mouse.kind == MouseEventKind::Moved {
            let same = match (&self.auth.hover, &badge) {
                (Some(a), Some(b)) => a.same_as(b),
                (None, None) => true,
                _ => false,
            };
            if !same {
                self.auth.hover = badge;
                outcome.repaint = true;
            }
            return false;
        }
        if mouse.kind == MouseEventKind::Down(MouseButton::Left) {
            if let Some(endpoint_id) = badge {
                self.open_auth_popup(endpoint_id.clone(), resolved);
                match self.auth_popup_size() {
                    Some((cols, rows)) => {
                        outcome.push(
                            ClientShellAction::SshAuth(
                                SshAuthCommand::Start { endpoint_id, cols, rows },
                            ),
                        );
                        outcome.repaint = true;
                        return true;
                    },
                    None => {
                        return false;
                    },
                }
            }
        }
        false
    }

    /// Handles a batch of input while the popup is open. Giving up discards what was typed
    /// before it in the batch, and what comes after.
    pub fn handle_auth_input(&mut self, events: Vec<RawInputEvent>) -> (outcome: ClientShellInput)
        ensures
            *final(self) == *old(self),
            outcome@ == match old(self).auth@.popup {
                Some(popup) => auth_input(popup, events@),
                None => InputView::nothing(),
            },
    {
        let mut outcome = ClientShellInput::default();
        let popup = match &self.auth.popup {
            Some(popup) => popup,
            None => {
                return outcome;
            },
        };
        let accepting = popup.phase == Phase::Authenticating;
        let mut bytes: Vec<u8> = Vec::new();
        let mut i: usize = 0;
        while i < events.len()
            invariant
                i <= events.len(),
                accepting == (popup.phase == Phase::Authenticating),
                old(self).auth@.popup == Some(popup@),
                outcome@ == InputView::nothing(),
                forall|j: int| 0 <= j < i ==> !cancels(#[trigger] &events@[j], popup.cancel),
                accepting ==> bytes@ == all_typed(events@.take(i as int)),
                !accepting ==> bytes@.len() == 0,
            decreases events.len() - i,
        {
            if is_cancel(&events[i], popup.cancel) {
                assert(some_cancels(events@, popup.cancel));
                outcome.push(ClientShellAction::SshAuth(SshAuthCommand::Cancel));
                assert(outcome@.actions =~= auth_input(popup@, events@).actions);
                return outcome;
            }
            if accepting {
                events[i].type_into(&mut bytes);
                assert(events@.take(i + 1).drop_last() =~= events@.take(i as int));
            }
            i += 1;
        }
        assert(events@.take(i as int) =~= events@);
        if !bytes.is_empty() {
            outcome.push(ClientShellAction::SshAuth(SshAuthCommand::Input(bytes)));
            assert(outcome@.actions =~= auth_input(popup@, events@).actions);
        }
        outcome
    }

    /// The rectangle of the popup on a screen of `cols` columns and `rows` rows. `resolved` is
    /// what the popup's request resolves to there.
    pub fn auth_popup_rect(
        &self,
        cols: u16,
        rows: u16,
        resolved: Option<PopupGeometry>,
    ) -> (rect: Option<Rect>)
        ensures
            rect == match self.auth@.popup {
                Some(_) => Some(auth_layout(cols, rows, resolved).0),
                None => None,
            },
    {
        match &self.auth.popup {
            Some(_) => Some(geometry(cols, rows, resolved).0),
            None => None,
        }
    }
}

/// The machine of the first badge at `point`.
pub open spec fn first_at(
    badges: Seq<(Rect, EndpointIdView)>,
    point: (u16, u16),
) -> Option<EndpointIdView>
    decreases badges.len(),
{
    if badges.len() == 0 {
        None
    } else if badges[0].0.holds(point) {
        Some(badges[0].1)
    } else {
        first_at(badges.drop_first(), point)
    }
}

/// What a mouse event does to the shell and to the outcome of its batch.
pub open spec fn badge_event(
    before: ClientShellState,
    after: ClientShellState,
    outcome_before: InputView,
    outcome_after: InputView,
    mouse: MouseInput,
    resolved: Option<PopupGeometry>,
    opened: bool,
) -> bool {
    let point = (mouse.column, mouse.row);
    let badge = before.badge_at(point);
    if before.covered(point) {
        &&& !opened
        &&& after.same_but_auth(before)
        &&& after.auth@ == (AuthView { hover: None, ..before.auth@ })
        &&& outcome_after == (InputView {
            repaint: outcome_before.repaint || before.auth@.hover is Some,
            ..outcome_before
        })
    } else if mouse.kind == MouseEventKind::Moved {
        &&& !opened
        &&& after.same_but_auth(before)
        &&& after.auth@ == (AuthView { hover: badge, ..before.auth@ })
        &&& outcome_after == (InputView {
            repaint: outcome_before.repaint || before.auth@.hover != badge,
            ..outcome_before
        })
    } else if mouse.kind == MouseEventKind::Down(MouseButton::Left) && badge is Some {
        let size = before.fresh_popup(badge->0, resolved).size;
        &&& opened
        &&& after.opened(before, badge->0, resolved)
        &&& outcome_after == (InputView {
            actions: outcome_before.actions.push(
                ActionView::SshAuth(
                    SshAuthCommandView::Start {
                        endpoint_id: badge->0,
                        cols: size.0,
                        rows: size.1,
                    },
                ),
            ),
            repaint: true,
        })
    } else {
        !opened && after == before && outcome_after == outcome_before
    }
}

proof fn lemma_first_at(badges: Seq<(Rect, EndpointIdView)>, point: (u16, u16)) -> (i: int)
    requires
        first_at(badges, point) is Some,
    ensures
        0 <= i < badges.len(),
        badges[i].0.holds(point),
        first_at(badges, point) == Some(badges[i].1),
    decreases badges.len(),
{
    if badges[0].0.holds(point) {
        0
    } else {
        let i = lemma_first_at(badges.drop_first(), point);
        assert(badges.drop_first()[i] == badges[i + 1]);
        i + 1
    }
}

/// A popup opens only on a left click that nothing else covers, on the badge of a remote machine
/// that wants attention and asks for authentication; it opens for that machine.
pub proof fn law_popup_opens_only_where_asked(
    before: ClientShellState,
    after: ClientShellState,
    outcome_before: InputView,
    outcome_after: InputView,
    mouse: MouseInput,
    resolved: Option<PopupGeometry>,
)
    requires
        badge_event(before, after, outcome_before, outcome_after, mouse, resolved, true),
    ensures
        mouse.kind == MouseEventKind::Down(MouseButton::Left),
        !before.covered((mouse.column, mouse.row)),
        ({
            &&& after.auth@.popup matches Some(popup)
            &&& popup.endpoint != EndpointIdView::Local
            &&& before.auth@.required.contains(popup.endpoint)
            &&& status_of(before.endpoints@, popup.endpoint) == Some(
                ClientEndpointStatus::Attention,
            )
            &&& exists|i: int|
                0 <= i < before.hits.machines@.len() && (
                #[trigger] before.hits.machines@[i]).endpoint_id@ == popup.endpoint
                    && before.hits.machines@[i].status_badge.holds((mouse.column, mouse.row))
        }),
{
    let point = (mouse.column, mouse.row);
    let offered = |hit: MachineHit| before.offers(&hit);
    let machines = before.hits.machines@;
    let kept = machines.filter(offered);
    let i = lemma_first_at(before.badges(), point);
    machines.lemma_filter_pred(offered, i);
    machines.lemma_filter_contains_rev(offered, kept[i]);
    assert(machines.contains(kept[i]));
}

/// Once a popup verifies or has failed, the terminal no longer changes what it shows.
pub proof fn law_popup_keeps_verdict(
    popup: PopupView,
    message: Seq<char>,
    text: Seq<char>,
    cursor: Option<(u16, u16)>,
)
    ensures
        popup.verifying().updated(text, cursor) == popup.verifying(),
        popup.failed(message).updated(text, cursor) == popup.failed(message),
{
}

/// Giving up discards what was typed: a batch with such an event comes to nothing else, wherever
/// in the batch the event stands.
pub proof fn law_cancel_discards_input(popup: PopupView, events: Seq<RawInputEvent>, i: int)
    requires
        0 <= i < events.len(),
        cancels(&events[i], popup.cancel),
    ensures
        auth_input(popup, events).actions == seq![ActionView::SshAuth(SshAuthCommandView::Cancel)],
{
}

/// Input goes to an attempt only while it authenticates, and then all that the batch typed, in
/// order.
pub proof fn law_input_only_while_authenticating(
    popup: PopupView,
    events: Seq<RawInputEvent>,
    bytes: Seq<u8>,
)
    requires
        auth_input(popup, events).actions.contains(
            ActionView::SshAuth(SshAuthCommandView::Input(bytes)),
        ),
    ensures
        popup.phase == Phase::Authenticating,
        bytes == all_typed(events),
        bytes.len() > 0,
{
}

} // verus!
