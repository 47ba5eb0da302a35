//! The part of the client's shell that authentication reads and changes.
pub mod auth;
pub mod frame;

use vstd::prelude::*;

use crate::endpoint::{ClientEndpointId, ClientEndpointStatus, EndpointIdView};
use crate::rect::Rect;
use crate::shell::auth::{AuthPresentation, SshAuthCommand, SshAuthCommandView};
use crate::style::Palette;

verus! {

/// A machine as the shell lists it.
#[derive(Debug, PartialEq, Eq)]
pub struct ClientShellEndpoint {
    pub endpoint_id: ClientEndpointId,
    pub label: String,
    pub status: ClientEndpointStatus,
}

/// Where a machine was painted last, and where its status badge.
#[derive(Debug, PartialEq, Eq)]
pub struct MachineHit {
    pub endpoint_id: ClientEndpointId,
    pub rect: Rect,
    pub status_badge: Rect,
}

/// What was painted where.
#[derive(Debug, PartialEq, Eq)]
pub struct ShellHits {
    pub machines: Vec<MachineHit>,
    pub popup: Option<Rect>,
    pub notification_toast: Rect,
}

#[derive(Clone, Copy, Debug, PartialEq, Eq, Structural)]
pub enum ClientShellMode {
    Terminal,
    Navigate,
    Copy,
}

/// What the user is in the middle of: presses, drags, selections and modes. Points are columns
/// and rows.
#[derive(Clone, Copy, Debug, PartialEq, Eq)]
pub struct Interaction {
    pub chrome_drag: Option<(u16, u16)>,
    pub workspace_press: Option<(u16, u16)>,
    pub tab_press: Option<(u16, u16)>,
    pub pane_mouse_gesture: Option<(u16, u16)>,
    pub link_hover: Option<(u16, u16)>,
    pub url_click_consumes_until_up: bool,
    pub selection: Option<((u16, u16), (u16, u16))>,
    pub selection_autoscroll: Option<i16>,
    pub selection_highlight_clear_deadline: Option<u64>,
    pub word_selection_gesture: Option<(u16, u16)>,
    pub last_pane_click: Option<(u16, u16)>,
    pub copy_mode: Option<(u16, u16)>,
    pub copy_pipeline: Option<u64>,
    pub navigate_workspace_id: Option<u64>,
    pub mode: ClientShellMode,
    /// The host's input source has yet to be set to what the mode wants.
    pub input_source_stale: bool,
}

impl Interaction {
    /// Nothing under way, and the terminal takes the keys.
    pub open spec fn none() -> Interaction {
        Interaction {
            chrome_drag: None,
            workspace_press: None,
            tab_press: None,
            pane_mouse_gesture: None,
            link_hover: None,
            url_click_consumes_until_up: false,
            selection: None,
            selection_autoscroll: None,
            selection_highlight_clear_deadline: None,
            word_selection_gesture: None,
            last_pane_click: None,
            copy_mode: None,
            copy_pipeline: None,
            navigate_workspace_id: None,
            mode: ClientShellMode::Terminal,
            input_source_stale: true,
        }
    }

    pub fn cleared() -> (interaction: Interaction)
        ensures
            interaction == Interaction::none(),
    {
        Interaction {
            chrome_drag: None,
            workspace_press: None,
            tab_press: None,
            pane_mouse_gesture: None,
            link_hover: None,
            url_click_consumes_until_up: false,
            selection: None,
            selection_autoscroll: None,
            selection_highlight_clear_deadline: None,
            word_selection_gesture: None,
            last_pane_click: None,
            copy_mode: None,
            copy_pipeline: None,
            navigate_workspace_id: None,
            mode: ClientShellMode::Terminal,
            input_source_stale: true,
        }
    }
}

#[derive(Debug, PartialEq, Eq)]
pub struct ClientShellConfig {
    pub palette: Palette,
}

/// The shell: the machines, what is on the screen, and the authentication popup.
pub struct ClientShellState {
    pub config: ClientShellConfig,
    pub endpoints: Vec<ClientShellEndpoint>,
    pub hits: ShellHits,
    /// The overlay that is open, by its number.
    pub overlay: Option<u64>,
    pub popup_pending: bool,
    /// The terminal of the pane popup that is open, by its number.
    pub popup_terminal_id: Option<u64>,
    pub visible_endpoint_notice: Option<String>,
    pub visible_notification: Option<String>,
    /// Columns and rows of the frame that was composed last.
    pub last_composed_size: Option<(u16, u16)>,
    pub interaction: Interaction,
    pub auth: AuthPresentation,
}

/// What the shell asks of the client.
pub enum ClientShellAction {
    SshAuth(SshAuthCommand),
}

pub enum ActionView {
    SshAuth(SshAuthCommandView),
}

impl View for ClientShellAction {
    type V = ActionView;

    open spec fn view(&self) -> ActionView {
        match self {
            ClientShellAction::SshAuth(command) => ActionView::SshAuth(command@),
        }
    }
}

/// What came of a batch of input.
pub struct ClientShellInput {
    pub actions: Vec<ClientShellAction>,
    pub repaint: bool,
}

pub struct InputView {
    pub actions: Seq<ActionView>,
    pub repaint: bool,
}

impl View for ClientShellInput {
    type V = InputView;

    open spec fn view(&self) -> InputView {
        InputView {
            actions: self.actions@.map_values(|action: ClientShellAction| action@),
            repaint: self.repaint,
        }
    }
}

impl InputView {
    /// Nothing asked, nothing to repaint.
    pub open spec fn nothing() -> InputView {
        InputView { actions: seq![], repaint: false }
    }
}

impl Default for ClientShellInput {
    fn default() -> (input: Self)
        ensures
            input@ == InputView::nothing(),
    {
        let input = ClientShellInput { actions: Vec::new(), repaint: false };
        assert(input@.actions =~= seq![]);
        input
    }
}

impl ClientShellInput {
    /// Adds one action at the end.
    pub fn push(&mut self, action: ClientShellAction)
        ensures
            final(self)@ == (InputView {
                actions: old(self)@.actions.push(action@),
                ..old(self)@
            }),
    {
        self.actions.push(action);
        assert(self@.actions =~= old(self)@.actions.push(action@));
    }
}

/// The status of the first of `endpoints` that is `id`.
pub open spec fn status_of(
    endpoints: Seq<ClientShellEndpoint>,
    id: EndpointIdView,
) -> Option<ClientEndpointStatus>
    decreases endpoints.len(),
{
    if endpoints.len() == 0 {
        None
    } else if endpoints[0].endpoint_id@ == id {
        Some(endpoints[0].status)
    } else {
        status_of(endpoints.drop_first(), id)
    }
}

/// `after` is `before` with the status of `id` set to `status`.
pub open spec fn status_set(
    before: Seq<ClientShellEndpoint>,
    after: Seq<ClientShellEndpoint>,
    id: EndpointIdView,
    status: ClientEndpointStatus,
) -> bool {
    &&& after.len() == before.len()
    &&& forall|i: int|
        #![trigger after[i]]
        0 <= i < before.len() ==> after[i] == if before[i].endpoint_id@ == id {
            ClientShellEndpoint { status, ..before[i] }
        } else {
            before[i]
        }
}

impl ClientShellState {
    pub fn endpoint_status(&self, id: &ClientEndpointId) -> (status: Option<ClientEndpointStatus>)
        ensures
            status == status_of(self.endpoints@, id@),
    {
        let mut i: usize = 0;
        assert(self.endpoints@.skip(0) =~= self.endpoints@);
        while i < self.endpoints.len()
            invariant
                i <= self.endpoints.len(),
                status_of(self.endpoints@.skip(i as int), id@) == status_of(
                    self.endpoints@,
                    id@,
                ),
            decreases self.endpoints.len() - i,
        {
            if self.endpoints[i].endpoint_id.same_as(id) {
                return Some(self.endpoints[i].status);
            }
            assert(self.endpoints@.skip(i as int).drop_first() =~= self.endpoints@.skip(i + 1));
            i += 1;
        }
        None
    }

    pub fn set_endpoint_status(&mut self, id: &ClientEndpointId, status: ClientEndpointStatus)
        ensures
            *final(self) == (ClientShellState {
                endpoints: final(self).endpoints,
                ..*old(self)
            }),
            status_set(old(self).endpoints@, final(self).endpoints@, id@, status),
    {
        let mut i: usize = 0;
        let ghost before = self.endpoints@;
        while i < self.endpoints.len()
            invariant
                i <= self.endpoints.len(),
                self.endpoints.len() == before.len(),
                *self == (ClientShellState { endpoints: self.endpoints, ..*old(self) }),
                status_set(before.take(i as int), self.endpoints@.take(i as int), id@, status),
                forall|j: int| i <= j < before.len() ==> self.endpoints@[j] == before[j],
            decreases self.endpoints.len() - i,
        {
            let ghost during = self.endpoints@;
            if self.endpoints[i].endpoint_id.same_as(id) {
                let endpoint_id = self.endpoints[i].endpoint_id.clone();
                let label = self.endpoints[i].label.clone();
                self.endpoints.set(i, ClientShellEndpoint { endpoint_id, label, status });
            }
            i += 1;
            proof {
                let after = self.endpoints@;
                assert forall|j: int| 0 <= j < i implies #[trigger] after.take(i as int)[j]
                    == if before.take(i as int)[j].endpoint_id@ == id@ {
                    ClientShellEndpoint { status, ..before.take(i as int)[j] }
                } else {
                    before.take(i as int)[j]
                } by {
                    if j < i - 1 {
                        assert(after[j] == during[j]);
                        assert(during.take(i - 1)[j] == during[j]);
                        assert(before.take(i - 1)[j] == before[j]);
                    }
                }
            }
        }
        assert(before.take(i as int) =~= before);
        assert(self.endpoints@.take(i as int) =~= self.endpoints@);
    }
}

/// Setting the status of a listed machine is what reading it then gives, and it changes what is
/// read of no other machine.
pub proof fn law_status_set(
    before: Seq<ClientShellEndpoint>,
    after: Seq<ClientShellEndpoint>,
    id: EndpointIdView,
    status: ClientEndpointStatus,
    other: EndpointIdView,
)
    requires
        status_set(before, after, id, status),
    ensures
        status_of(after, other) == if other == id && status_of(before, id) is Some {
            Some(status)
        } else {
            status_of(before, other)
        },
    decreases before.len(),
{
    if before.len() > 0 {
        assert(after[0].endpoint_id@ == before[0].endpoint_id@);
        let b = before.drop_first();
        let a = after.drop_first();
        assert forall|i: int| 0 <= i < b.len() implies #[trigger] a[i] == if b[i].endpoint_id@
            == id {
            ClientShellEndpoint { status, ..b[i] }
        } else {
            b[i]
        } by {
            assert(a[i] == after[i + 1]);
        }
        law_status_set(b, a, id, status, other);
    }
}

} // verus!
