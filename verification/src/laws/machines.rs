//! Machines and their supervisors, who owns input, and rectangles.
use vstd::prelude::*;

use crate::endpoint::{
    enables, some_enables, ClientEndpointId, ClientEndpointStatus, EndpointIdView,
    EndpointSupervisors, SavedSshEndpoint,
};
use crate::error::{AuthError, ErrorKind};
use crate::input::RawInputEvent;
use crate::input_epoch::{ClientLoopEvent, HostGeometry, InputEpoch};
use crate::laws::attempt::{
    is_first_listed, lemma_status_of_first, lemma_status_of_none, only_schedule_of, only_status_of,
};
use crate::laws::popup::{bytes_of, is_idle, lies_in};
use crate::rect::{contains, max_one, Rect};
use crate::shell::auth::{lists, AuthPresentation};
use crate::shell::{ClientShellAction, ClientShellInput, ClientShellState, Interaction};
use crate::ssh_auth::SshAuthProcess;
use crate::ssh_authentication::{Authentication, PollTurn};
use crate::style::{Color, Style};

verus! {

/// Two ids are of the same machine exactly where both are this one, or both are of the same profile;
/// a copy is of the same.
pub proof fn law_same_machine(
    a: ClientEndpointId,
    b: ClientEndpointId,
    same: bool,
    local: bool,
    copy: ClientEndpointId,
)
    requires
        call_ensures(ClientEndpointId::same_as, (&a, &b), same),
        call_ensures(ClientEndpointId::is_local, (&a,), local),
        call_ensures(ClientEndpointId::clone, (&a,), copy),
    ensures
        same == match (a, b) {
            (ClientEndpointId::Local, ClientEndpointId::Local) => true,
            (ClientEndpointId::Ssh(x), ClientEndpointId::Ssh(y)) => x@ == y@,
            _ => false,
        },
        local == (a is Local),
        copy == a,
{
}

/// The machine of a profile is the remote one of its id, also of an attempt for it.
pub proof fn law_machine_of_a_profile(
    profile: SavedSshEndpoint,
    auth: Authentication,
    id: ClientEndpointId,
    attempt_id: ClientEndpointId,
    copy: SavedSshEndpoint,
)
    requires
        call_ensures(SavedSshEndpoint::endpoint_id, (&profile,), id),
        call_ensures(Authentication::endpoint_id, (&auth,), attempt_id),
        call_ensures(SavedSshEndpoint::clone, (&profile,), copy),
    ensures
        id matches ClientEndpointId::Ssh(name) && name@ == profile.id@,
        attempt_id matches ClientEndpointId::Ssh(name) && name@ == auth.profile.id@,
        copy == profile,
{
}

/// Each enabled profile is supervised, and no other machine; all are tried at once.
pub proof fn law_enabled_profiles_are_supervised(
    profiles: &[SavedSshEndpoint],
    now: u64,
    supervisors: EndpointSupervisors,
    id: EndpointIdView,
)
    requires
        call_ensures(EndpointSupervisors::new, (profiles, now), supervisors),
    ensures
        supervisors@.contains_key(id) == exists|i: int|
            0 <= i < profiles@.len() && (#[trigger] profiles@[i]).enabled && id
                == EndpointIdView::Ssh(profiles@[i].id@),
        supervisors@.contains_key(id) ==> supervisors@[id] == Some(now),
{
    if some_enables(profiles@, id) {
        let i = choose|i: int| enables(profiles@, i, id);
        assert(profiles@[i].enabled);
    }
    if exists|i: int|
        0 <= i < profiles@.len() && (#[trigger] profiles@[i]).enabled && id == EndpointIdView::Ssh(
            profiles@[i].id@,
        ) {
        let i = choose|i: int|
            0 <= i < profiles@.len() && (#[trigger] profiles@[i]).enabled && id
                == EndpointIdView::Ssh(profiles@[i].id@);
        assert(enables(profiles@, i, id));
    }
}

/// Pausing a machine stops its tries and no others, and tells whether it is supervised; it reads back
/// as not tried.
pub proof fn law_pause_reads_back(
    supervisors: &mut EndpointSupervisors,
    id: ClientEndpointId,
    supervised: bool,
    read: Option<u64>,
)
    requires
        call_ensures(
            EndpointSupervisors::pause_authentication,
            (supervisors, &id),
            supervised,
        ),
        call_ensures(
            EndpointSupervisors::authentication_retry,
            (&*final(supervisors), &id),
            read,
        ),
    ensures
        supervised == old(supervisors)@.contains_key(id@),
        only_schedule_of(old(supervisors)@, final(supervisors)@, id@, None),
        read is None,
{
}

/// A machine that is to be tried again is tried at that time, if it is supervised, and reads back so;
/// no other machine is touched.
pub proof fn law_retry_reads_back(
    supervisors: &mut EndpointSupervisors,
    id: ClientEndpointId,
    now: u64,
    read: Option<u64>,
)
    requires
        call_ensures(
            EndpointSupervisors::retry_after_authentication,
            (supervisors, &id, now),
            (),
        ),
        call_ensures(
            EndpointSupervisors::authentication_retry,
            (&*final(supervisors), &id),
            read,
        ),
    ensures
        only_schedule_of(old(supervisors)@, final(supervisors)@, id@, Some(now)),
        read == if old(supervisors)@.contains_key(id@) { Some(now) } else { None },
{
}

/// A machine has the status under which it is listed first, and none if it is not listed.
pub proof fn law_status_is_the_first_listed(
    shell: ClientShellState,
    id: ClientEndpointId,
    status: Option<ClientEndpointStatus>,
)
    requires
        call_ensures(ClientShellState::endpoint_status, (&shell, &id), status),
    ensures
        forall|i: int| #[trigger]
            is_first_listed(shell.endpoints@, id@, i) ==> status == Some(
                shell.endpoints@[i].status,
            ),
        (forall|j: int|
            0 <= j < shell.endpoints@.len() ==> (#[trigger] shell.endpoints@[j]).endpoint_id@
                != id@) ==> status is None,
{
    assert forall|i: int| #[trigger] is_first_listed(shell.endpoints@, id@, i) implies status
        == Some(shell.endpoints@[i].status) by {
        lemma_status_of_first(shell.endpoints@, id@, i);
    }
    if forall|j: int|
        0 <= j < shell.endpoints@.len() ==> (#[trigger] shell.endpoints@[j]).endpoint_id@ != id@ {
        lemma_status_of_none(shell.endpoints@, id@);
    }
}

/// Setting a status sets that of one machine, and changes nothing else.
pub proof fn law_status_of_one_machine(
    shell: &mut ClientShellState,
    id: ClientEndpointId,
    status: ClientEndpointStatus,
)
    requires
        call_ensures(ClientShellState::set_endpoint_status, (shell, &id, status), ()),
    ensures
        only_status_of(old(shell).endpoints@, final(shell).endpoints@, id@, status),
        *final(shell) == (ClientShellState { endpoints: final(shell).endpoints, ..*old(shell) }),
{
}

/// Input is stamped with its owner and otherwise as it was, once; what is no input goes on unstamped.
pub proof fn law_input_is_stamped(
    owner: InputEpoch,
    event: ClientLoopEvent,
    stamped: ClientLoopEvent,
)
    requires
        call_ensures(InputEpoch::own, (owner, event), stamped),
    ensures
        event is StdinInput || event is StdinEvents || event is PixelMouse ==> (stamped matches
            ClientLoopEvent::OwnedInput { epoch, event: inner } && epoch == owner.0 && *inner
            == event),
        event is Resize || event is OwnedInput ==> stamped == event,
{
}

/// The owner changes only at a poll without data and without an unfinished sequence, and then to the
/// one captured before it.
pub proof fn law_owner_changes_when_idle(
    owner: InputEpoch,
    candidate: InputEpoch,
    readable: bool,
    pending: bool,
    next: InputEpoch,
)
    requires
        call_ensures(InputEpoch::after_poll, (owner, candidate, readable, pending), next),
    ensures
        readable ==> next == owner,
        pending ==> next == owner,
        !readable && !pending ==> next == candidate,
{
}

/// A geometry has just the extent that it was made with, which is not empty.
pub proof fn law_geometry_has_extent(
    cols: u16,
    rows: u16,
    width_px: u32,
    height_px: u32,
    geometry: Option<HostGeometry>,
)
    requires
        call_ensures(HostGeometry::new, (cols, rows, width_px, height_px), geometry),
    ensures
        geometry is Some <==> cols != 0 && rows != 0 && width_px != 0 && height_px != 0,
        geometry matches Some(g) ==> g.cols == cols && g.rows == rows && g.width_px == width_px
            && g.height_px == height_px,
{
}

/// What an event types is put behind what was typed before.
pub proof fn law_typing_appends(event: RawInputEvent, bytes: &mut Vec<u8>)
    requires
        call_ensures(RawInputEvent::type_into, (&event, bytes), ()),
    ensures
        final(bytes)@.len() == old(bytes)@.len() + bytes_of(event).len(),
        final(bytes)@.take(old(bytes)@.len() as int) == old(bytes)@,
        final(bytes)@.skip(old(bytes)@.len() as int) == bytes_of(event),
{
    assert(final(bytes)@.take(old(bytes)@.len() as int) =~= old(bytes)@);
    assert(final(bytes)@.skip(old(bytes)@.len() as int) =~= bytes_of(event));
}

/// An action is asked for behind those from before; a new outcome asks for nothing.
pub proof fn law_actions_in_order(
    input: &mut ClientShellInput,
    action: ClientShellAction,
    fresh: ClientShellInput,
)
    requires
        call_ensures(ClientShellInput::push, (input, action), ()),
        call_ensures(ClientShellInput::default, (), fresh),
    ensures
        final(input)@.actions.len() == old(input)@.actions.len() + 1,
        final(input)@.actions.last() == action@,
        final(input)@.actions.drop_last() == old(input)@.actions,
        final(input).repaint == old(input).repaint,
        fresh.actions@.len() == 0,
        !fresh.repaint,
{
    assert(final(input)@.actions.drop_last() =~= old(input)@.actions);
    assert(fresh.actions@.len() == fresh@.actions.len());
}

/// A rectangle has its corner where it is put, and its size as far as the largest column and row.
pub proof fn law_rectangles(
    x: u16,
    y: u16,
    width: u16,
    height: u16,
    rect: Rect,
    bottom: u16,
    point: (u16, u16),
    inside: bool,
)
    requires
        call_ensures(Rect::new, (x, y, width, height), rect),
        call_ensures(Rect::bottom, (&rect,), bottom),
        call_ensures(contains, (rect, point), inside),
    ensures
        rect.x == x && rect.y == y,
        x + width <= 0xffff ==> rect.width == width,
        x + width > 0xffff ==> x + rect.width == 0xffff,
        y + height <= 0xffff ==> rect.height == height,
        y + height > 0xffff ==> y + rect.height == 0xffff,
        bottom == rect.y + rect.height,
        inside == lies_in(point, rect),
{
}

/// Whether a point lies in a rectangle, and where the rectangle ends, however it came about; and an
/// extent of one at least.
pub proof fn law_points_and_extents(
    rect: Rect,
    point: (u16, u16),
    inside: bool,
    bottom: u16,
    extent: u16,
    at_least: u16,
)
    requires
        call_ensures(contains, (rect, point), inside),
        call_ensures(Rect::bottom, (&rect,), bottom),
        call_ensures(max_one, (extent,), at_least),
    ensures
        inside == lies_in(point, rect),
        rect.y + rect.height <= 0xffff ==> bottom == rect.y + rect.height,
        rect.y + rect.height > 0xffff ==> bottom == 0xffff,
        extent >= 1 ==> at_least == extent,
        extent == 0 ==> at_least == 1,
{
}

/// An error has the kind and the words that it was made with; one of a kind alone says what std says
/// of that kind.
pub proof fn law_errors_say_what_they_are(
    kind: ErrorKind,
    message: &str,
    error: AuthError,
    bare: AuthError,
)
    requires
        call_ensures(AuthError::new, (kind, message), error),
        call_ensures(AuthError::from_kind, (kind,), bare),
    ensures
        error.kind == kind && error.message@ == message@,
        bare.kind == kind,
        bare.message@ == match kind {
            ErrorKind::WouldBlock => "operation would block"@,
            ErrorKind::TimedOut => "timed out"@,
            ErrorKind::BrokenPipe => "broken pipe"@,
            ErrorKind::Interrupted => "operation interrupted"@,
            ErrorKind::Other => "other error"@,
        },
{
}

/// The viewport ends at the last column and row of the terminal.
pub proof fn law_viewport_ends(turn: PollTurn, end: (u16, u32))
    requires
        call_ensures(PollTurn::viewport_end, (&turn,), end),
    ensures
        turn.size.0 >= 1 ==> end.0 + 1 == turn.size.0,
        turn.size.1 >= 1 ==> end.1 + 1 == turn.size.1,
        turn.size.0 == 0 ==> end.0 == 0,
        turn.size.1 == 0 ==> end.1 == 0,
{
}

/// An attempt begins with its process, for its profile, with nothing to be written.
pub proof fn law_attempt_begins(
    profile: SavedSshEndpoint,
    cols: u16,
    rows: u16,
    process: SshAuthProcess,
    auth: Authentication,
    running: bool,
)
    requires
        call_ensures(Authentication::start, (profile, cols, rows, process), auth),
        call_ensures(Authentication::has_process, (&auth,), running),
    ensures
        auth.profile == profile,
        auth.process == Some(process),
        auth.pending_input@.len() == 0,
        auth.verifying_until is None,
        auth.size.0 == if cols > 0 { cols } else { 1 },
        auth.size.1 == if rows > 0 { rows } else { 1 },
        running,
{
}

/// A style gets the bits and the background that it is given, and keeps all else; bits that are
/// switched on are not switched off.
pub proof fn law_styles(style: Style, modifier: u16, color: Color, plus: Style, on: Style)
    requires
        call_ensures(Style::add_modifier, (style, modifier), plus),
        call_ensures(Style::bg, (style, color), on),
    ensures
        plus.add_modifier & modifier == modifier,
        plus.add_modifier & !modifier == style.add_modifier & !modifier,
        plus.sub_modifier & modifier == 0,
        plus.sub_modifier & !modifier == style.sub_modifier & !modifier,
        plus.fg == style.fg && plus.bg == style.bg && plus.underline_color == style.underline_color,
        on.bg == Some(color),
        on.fg == style.fg && on.underline_color == style.underline_color,
        on.add_modifier == style.add_modifier && on.sub_modifier == style.sub_modifier,
{
    let a = style.add_modifier;
    let b = style.sub_modifier;
    assert((a | modifier) & modifier == modifier) by (bit_vector);
    assert((a | modifier) & !modifier == a & !modifier) by (bit_vector);
    assert((b & !modifier) & modifier == 0) by (bit_vector);
    assert((b & !modifier) & !modifier == b & !modifier) by (bit_vector);
}

/// Without anything under way the terminal takes the keys; without authentication there is no badge
/// and no popup.
pub proof fn law_nothing_under_way(
    interaction: Interaction,
    shell: ClientShellState,
    auth: AuthPresentation,
)
    requires
        call_ensures(Interaction::cleared, (), interaction),
        shell.interaction == interaction,
        call_ensures(AuthPresentation::default, (), auth),
    ensures
        is_idle(shell),
        auth.hover is None && auth.popup is None,
        auth.required@.len() == 0,
{
    if auth.required@.len() > 0 {
        let id = auth.required@[0]@;
        assert(lists(auth.required@, id));
        assert(auth@.required.contains(id));
    }
}

} // verus!
