//! What the user's input and the badges do, and what the popup shows.
use vstd::prelude::*;
use vstd::utf8::encode_utf8;

use crate::endpoint::{ClientEndpointId, ClientEndpointStatus, EndpointIdView};
use crate::input::{
    all_typed, KeyCode, KeyEventKind, MouseButton, MouseEventKind, MouseInput, RawInputEvent,
};
use crate::laws::attempt::{
    begins_with, has_no_controls, is_first_listed, is_shown_in_full, lemma_reason,
    lemma_status_of_first, lemma_status_of_none, lemma_unfiltered, only_popup_differs,
};
use crate::rect::Rect;
use crate::shell::auth::{
    cancels, first_at, geometry, geometry_with_hint, popup_request, some_cancels, AuthPresentation,
    Phase, PopupGeometry, PopupRequest, PopupSize, SshAuthCommand,
};
use crate::shell::frame::wrapped_line_count;
use crate::shell::{
    status_of, ClientShellAction, ClientShellEndpoint, ClientShellInput, ClientShellMode,
    ClientShellState, MachineHit,
};
use crate::style::{Palette, Style};
use crate::text::{failure_text, is_safe_char, law_safe_text, safe_chars, safe_text};

verus! {

/// The cell at column `point.0` and row `point.1` lies in `rect`.
pub open spec fn lies_in(point: (u16, u16), rect: Rect) -> bool {
    &&& rect.x <= point.0
    &&& point.0 - rect.x < rect.width
    &&& rect.y <= point.1
    &&& point.1 - rect.y < rect.height
}

/// The event gives up: Esc is pressed or repeated, or the left button is pressed on the cancel
/// button.
pub open spec fn gives_up(event: RawInputEvent, button: Rect) -> bool {
    ||| event matches RawInputEvent::Key(key) && key.code == KeyCode::Esc && (key.kind
        == KeyEventKind::Press || key.kind == KeyEventKind::Repeat)
    ||| event matches RawInputEvent::Mouse(mouse) && mouse.kind == MouseEventKind::Down(
        MouseButton::Left,
    ) && lies_in((mouse.column, mouse.row), button)
}

/// The bytes that the event types: those of a key, or the text in UTF-8.
pub open spec fn bytes_of(event: RawInputEvent) -> Seq<u8> {
    match event {
        RawInputEvent::Key(key) => key.legacy@,
        RawInputEvent::Text(text) => encode_utf8(text@),
        RawInputEvent::Paste(text) => encode_utf8(text@),
        RawInputEvent::Mouse(_) => Seq::empty(),
        RawInputEvent::Other => Seq::empty(),
    }
}

/// The bytes that the events type, one after the other.
pub open spec fn bytes_of_all(events: Seq<RawInputEvent>) -> Seq<u8>
    decreases events.len(),
{
    if events.len() == 0 {
        Seq::empty()
    } else {
        bytes_of(events[0]) + bytes_of_all(events.drop_first())
    }
}

proof fn lemma_all_typed(events: Seq<RawInputEvent>)
    ensures
        all_typed(events) == bytes_of_all(events),
    decreases events.len(),
{
    if events.len() > 0 {
        let front = events.drop_last();
        lemma_all_typed(front);
        lemma_bytes_of_last(events);
        assert(events.last().typed() =~= bytes_of(events.last()));
    }
}

proof fn lemma_bytes_of_last(events: Seq<RawInputEvent>)
    requires
        events.len() > 0,
    ensures
        bytes_of_all(events) == bytes_of_all(events.drop_last()) + bytes_of(events.last()),
    decreases events.len(),
{
    if events.len() == 1 {
        assert(events.drop_first().len() == 0);
        assert(events.drop_last().len() == 0);
        assert(bytes_of_all(events.drop_first()) =~= Seq::empty());
        assert(bytes_of_all(events.drop_last()) =~= Seq::empty());
        assert(bytes_of_all(events) =~= bytes_of(events.last()));
    } else {
        let rest = events.drop_first();
        lemma_bytes_of_last(rest);
        assert(rest.drop_last() =~= events.drop_last().drop_first());
        assert(rest.last() == events.last());
        assert(events.drop_last()[0] == events[0]);
        assert(bytes_of_all(events) =~= bytes_of_all(events.drop_last()) + bytes_of(
            events.last(),
        ));
    }
}

/// A batch of input comes to one action at most. Without a popup it comes to nothing. With an event
/// that gives up it comes to giving up, and what was typed is discarded. Else all bytes that it
/// types, if there are any, go to the attempt in order, as long as the popup authenticates. The
/// shell stays as it is.
pub proof fn law_input_of_a_batch(
    shell: &mut ClientShellState,
    events: Vec<RawInputEvent>,
    outcome: ClientShellInput,
)
    requires
        call_ensures(ClientShellState::handle_auth_input, (shell, events), outcome),
    ensures
        *final(shell) == *old(shell),
        !outcome.repaint,
        match old(shell).auth.popup {
            None => outcome.actions@.len() == 0,
            Some(popup) => if exists|i: int|
                0 <= i < events@.len() && gives_up(#[trigger] events@[i], popup.cancel) {
                &&& outcome.actions@.len() == 1
                &&& outcome.actions@[0] == ClientShellAction::SshAuth(SshAuthCommand::Cancel)
            } else if popup.phase == Phase::Authenticating && bytes_of_all(events@).len() > 0 {
                &&& outcome.actions@.len() == 1
                &&& outcome.actions@[0] matches ClientShellAction::SshAuth(
                    SshAuthCommand::Input(bytes),
                )
                &&& bytes@ == bytes_of_all(events@)
            } else {
                outcome.actions@.len() == 0
            },
        },
{
    lemma_all_typed(events@);
    let views = outcome@.actions;
    assert(views.len() == outcome.actions@.len());
    assert(outcome.actions@.len() > 0 ==> views[0] == outcome.actions@[0]@);
    if let Some(popup) = old(shell).auth.popup {
        if some_cancels(events@, popup.cancel) {
            let i = choose|i: int|
                0 <= i < events@.len() && cancels(#[trigger] &events@[i], popup.cancel);
            assert(gives_up(events@[i], popup.cancel));
        }
        if exists|i: int|
            0 <= i < events@.len() && gives_up(#[trigger] events@[i], popup.cancel) {
            let i = choose|i: int|
                0 <= i < events@.len() && gives_up(#[trigger] events@[i], popup.cancel);
            assert(cancels(&events@[i], popup.cancel));
        }
    }
}

/// One event alone reaches the attempt: a key that is no Esc with its bytes, a text or a paste in
/// UTF-8.
pub proof fn law_single_event_reaches_attempt(
    shell: &mut ClientShellState,
    events: Vec<RawInputEvent>,
    outcome: ClientShellInput,
)
    requires
        call_ensures(ClientShellState::handle_auth_input, (shell, events), outcome),
        old(shell).auth.popup matches Some(popup) && popup.phase == Phase::Authenticating,
        events@.len() == 1,
        events@[0] matches RawInputEvent::Key(key) ==> key.code != KeyCode::Esc,
        !(events@[0] is Mouse),
        bytes_of(events@[0]).len() > 0,
    ensures
        outcome.actions@.len() == 1,
        outcome.actions@[0] matches ClientShellAction::SshAuth(SshAuthCommand::Input(bytes))
            && bytes@ == bytes_of(events@[0]),
{
    law_input_of_a_batch(shell, events, outcome);
    assert(events@.drop_first().len() == 0);
    assert(bytes_of_all(events@.drop_first()) =~= Seq::empty());
    assert(bytes_of_all(events@) =~= bytes_of(events@[0]));
}

/// Something lies over the badges at `point`: an overlay, a popup, or a toast there.
pub open spec fn is_covered(shell: ClientShellState, point: (u16, u16)) -> bool {
    ||| shell.overlay is Some
    ||| shell.popup_pending
    ||| shell.popup_terminal_id is Some
    ||| shell.hits.popup is Some
    ||| shell.visible_endpoint_notice is Some && lies_in(point, shell.hits.notification_toast)
    ||| shell.visible_notification is Some && lies_in(point, shell.hits.notification_toast)
}

/// One of the listed machines is `id`.
pub open spec fn is_listed(ids: Seq<ClientEndpointId>, id: EndpointIdView) -> bool {
    exists|j: int| 0 <= j < ids.len() && (#[trigger] ids[j])@ == id
}

/// The first machine listed as `id` has the status Attention.
pub open spec fn wants_attention(
    endpoints: Seq<ClientShellEndpoint>,
    id: EndpointIdView,
) -> bool {
    exists|i: int| #[trigger]
        is_first_listed(endpoints, id, i) && endpoints[i].status == ClientEndpointStatus::Attention
}

/// The badge of a machine asks for authentication: the machine was painted, is not this one, asks
/// for it and wants attention.
pub open spec fn badge_asks(shell: ClientShellState, hit: MachineHit) -> bool {
    &&& hit.endpoint_id@ is Ssh
    &&& is_listed(shell.auth.required@, hit.endpoint_id@)
    &&& wants_attention(shell.endpoints@, hit.endpoint_id@)
    &&& hit.rect.width > 0
}

/// Of the machines on the screen, the one at position `k` is the first whose badge asks for
/// authentication and lies at `point`.
pub open spec fn is_badge_at(shell: ClientShellState, point: (u16, u16), k: int) -> bool {
    let hits = shell.hits.machines@;
    &&& 0 <= k < hits.len()
    &&& badge_asks(shell, hits[k]) && lies_in(point, hits[k].status_badge)
    &&& forall|j: int|
        0 <= j < k ==> !(badge_asks(shell, #[trigger] hits[j]) && lies_in(
            point,
            hits[j].status_badge,
        ))
}

/// No badge that asks for authentication lies at `point`.
pub open spec fn has_no_badge_at(shell: ClientShellState, point: (u16, u16)) -> bool {
    forall|j: int|
        0 <= j < shell.hits.machines@.len() ==> !(badge_asks(
            shell,
            #[trigger] shell.hits.machines@[j],
        ) && lies_in(point, shell.hits.machines@[j].status_badge))
}

proof fn lemma_wants_attention(endpoints: Seq<ClientShellEndpoint>, id: EndpointIdView)
    ensures
        wants_attention(endpoints, id) == (status_of(endpoints, id) == Some(
            ClientEndpointStatus::Attention,
        )),
{
    if exists|j: int| 0 <= j < endpoints.len() && (#[trigger] endpoints[j]).endpoint_id@ == id {
        let j = choose|j: int|
            0 <= j < endpoints.len() && (#[trigger] endpoints[j]).endpoint_id@ == id;
        let i = lemma_first_of(endpoints, id, j);
        lemma_status_of_first(endpoints, id, i);
        assert forall|k: int| #[trigger] is_first_listed(endpoints, id, k) implies k == i by {
            if k < i {
                assert(endpoints[k].endpoint_id@ != id);
            } else if i < k {
                assert(endpoints[i].endpoint_id@ != id);
            }
        }
        assert(is_first_listed(endpoints, id, i));
    } else {
        lemma_status_of_none(endpoints, id);
    }
}

proof fn lemma_first_of(endpoints: Seq<ClientShellEndpoint>, id: EndpointIdView, j: int) -> (i: int)
    requires
        0 <= j < endpoints.len(),
        endpoints[j].endpoint_id@ == id,
    ensures
        is_first_listed(endpoints, id, i),
    decreases j,
{
    if exists|k: int| 0 <= k < j && (#[trigger] endpoints[k]).endpoint_id@ == id {
        let k = choose|k: int| 0 <= k < j && (#[trigger] endpoints[k]).endpoint_id@ == id;
        lemma_first_of(endpoints, id, k)
    } else {
        j
    }
}

proof fn lemma_badge_asks(shell: ClientShellState, hit: MachineHit)
    ensures
        badge_asks(shell, hit) == shell.offers(&hit),
{
    lemma_wants_attention(shell.endpoints@, hit.endpoint_id@);
    let id = hit.endpoint_id@;
    assert(is_listed(shell.auth.required@, id) == shell.auth@.required.contains(id)) by {
        if is_listed(shell.auth.required@, id) {
            let j = choose|j: int|
                0 <= j < shell.auth.required@.len() && (#[trigger] shell.auth.required@[j])@ == id;
            assert(crate::shell::auth::lists(shell.auth.required@, id));
        }
        if crate::shell::auth::lists(shell.auth.required@, id) {
            let j = choose|j: int|
                0 <= j < shell.auth.required@.len() && (#[trigger] shell.auth.required@[j])@ == id;
            assert(is_listed(shell.auth.required@, id));
        }
    }
}

proof fn lemma_first_at_joined(
    a: Seq<(Rect, EndpointIdView)>,
    b: Seq<(Rect, EndpointIdView)>,
    point: (u16, u16),
)
    ensures
        first_at(a + b, point) == if first_at(a, point) is Some {
            first_at(a, point)
        } else {
            first_at(b, point)
        },
    decreases a.len(),
{
    if a.len() == 0 {
        assert(a + b =~= b);
    } else {
        assert((a + b)[0] == a[0]);
        assert((a + b).drop_first() =~= a.drop_first() + b);
        lemma_first_at_joined(a.drop_first(), b, point);
    }
}

proof fn lemma_none_at(badges: Seq<(Rect, EndpointIdView)>, point: (u16, u16))
    requires
        forall|i: int| 0 <= i < badges.len() ==> !(#[trigger] badges[i]).0.holds(point),
    ensures
        first_at(badges, point) is None,
    decreases badges.len(),
{
    if badges.len() > 0 {
        let rest = badges.drop_first();
        assert forall|i: int| 0 <= i < rest.len() implies !(#[trigger] rest[i]).0.holds(point) by {
            assert(rest[i] == badges[i + 1]);
        }
        lemma_none_at(rest, point);
    }
}

/// No badge of `hits` that asks for authentication lies at `point`.
proof fn lemma_no_badge_among(shell: ClientShellState, hits: Seq<MachineHit>, point: (u16, u16))
    requires
        forall|j: int|
            0 <= j < hits.len() ==> !(badge_asks(shell, #[trigger] hits[j]) && lies_in(
                point,
                hits[j].status_badge,
            )),
    ensures
        first_at(
            hits.filter(|hit: MachineHit| shell.offers(&hit)).map_values(
                |hit: MachineHit| (hit.status_badge, hit.endpoint_id@),
            ),
            point,
        ) is None,
{
    let offered = |hit: MachineHit| shell.offers(&hit);
    let kept = hits.filter(offered);
    let badges = kept.map_values(|hit: MachineHit| (hit.status_badge, hit.endpoint_id@));
    assert forall|i: int| 0 <= i < badges.len() implies !(#[trigger] badges[i]).0.holds(point) by {
        hits.lemma_filter_pred(offered, i);
        hits.lemma_filter_contains_rev(offered, kept[i]);
        let j = choose|j: int| 0 <= j < hits.len() && hits[j] == kept[i];
        lemma_badge_asks(shell, hits[j]);
    }
    lemma_none_at(badges, point);
}

#[verifier::rlimit(40)]
proof fn lemma_badge_at(shell: ClientShellState, point: (u16, u16))
    ensures
        forall|k: int| #[trigger]
            is_badge_at(shell, point, k) ==> shell.badge_at(point) == Some(
                shell.hits.machines@[k].endpoint_id@,
            ),
        has_no_badge_at(shell, point) ==> shell.badge_at(point) is None,
{
    let hits = shell.hits.machines@;
    let offered = |hit: MachineHit| shell.offers(&hit);
    let as_badge = |hit: MachineHit| (hit.status_badge, hit.endpoint_id@);
    assert forall|k: int| #[trigger] is_badge_at(shell, point, k) implies shell.badge_at(point)
        == Some(hits[k].endpoint_id@) by {
        let before = hits.take(k);
        let this = seq![hits[k]];
        let rest = hits.skip(k + 1);
        assert forall|j: int| 0 <= j < before.len() implies !(badge_asks(
            shell,
            #[trigger] before[j],
        ) && lies_in(point, before[j].status_badge)) by {
            assert(before[j] == hits[j]);
        }
        lemma_no_badge_among(shell, before, point);
        lemma_badge_asks(shell, hits[k]);
        Seq::filter_distributes_over_add(this, rest, offered);
        Seq::filter_distributes_over_add(before, this + rest, offered);
        assert(before + (this + rest) =~= hits);
        assert(this.filter(offered) =~= this) by {
            reveal(Seq::filter);
            assert(this.drop_last() =~= seq![]);
            assert(this.drop_last().filter(offered) =~= seq![]);
        }
        let later = (this + rest).filter(offered).map_values(as_badge);
        assert(hits.filter(offered).map_values(as_badge) =~= before.filter(offered).map_values(
            as_badge,
        ) + later);
        lemma_first_at_joined(before.filter(offered).map_values(as_badge), later, point);
        assert(later[0] == as_badge(hits[k]));
    }
    if has_no_badge_at(shell, point) {
        lemma_no_badge_among(shell, hits, point);
    }
}

/// Nothing else is under way any more: no press, drag, selection or copying, and the terminal takes
/// the keys.
pub open spec fn is_idle(shell: ClientShellState) -> bool {
    let now = shell.interaction;
    &&& now.chrome_drag is None && now.workspace_press is None && now.tab_press is None
    &&& now.pane_mouse_gesture is None && now.link_hover is None
    &&& !now.url_click_consumes_until_up
    &&& now.selection is None && now.selection_autoscroll is None
    &&& now.selection_highlight_clear_deadline is None && now.word_selection_gesture is None
    &&& now.last_pane_click is None && now.copy_mode is None && now.copy_pipeline is None
    &&& now.navigate_workspace_id is None
    &&& now.mode == ClientShellMode::Terminal
    &&& now.input_source_stale
}

/// A popup has just been opened for `id`: it authenticates, shows nothing yet, and has a cell at
/// least.
pub open spec fn has_fresh_popup(shell: ClientShellState, id: EndpointIdView) -> bool {
    &&& shell.auth.popup matches Some(popup)
    &&& popup.endpoint@ == id
    &&& popup.phase == Phase::Authenticating
    &&& popup.text@.len() == 0
    &&& popup.cursor is None
    &&& popup.size.0 >= 1 && popup.size.1 >= 1
}

/// The popup's terminal has the size of the second rectangle, a cell at least, and its cancel button
/// is the third.
pub open spec fn is_laid_out(shell: ClientShellState, rects: (Rect, Rect, Rect)) -> bool {
    &&& shell.auth.popup matches Some(popup)
    &&& popup.size.0 == if rects.1.width > 0 { rects.1.width } else { 1 }
    &&& popup.size.1 == if rects.1.height > 0 { rects.1.height } else { 1 }
    &&& popup.cancel == rects.2
}

/// The shells differ only in what is under way, the highlighted badge and the popup.
pub open spec fn same_surroundings(before: ClientShellState, after: ClientShellState) -> bool {
    &&& after == (ClientShellState {
        interaction: after.interaction,
        auth: after.auth,
        ..before
    })
    &&& after.auth@.required == before.auth@.required
}

/// A left click on a badge that asks for authentication, where nothing covers it, opens the popup
/// for the machine of that badge, laid out on the screen composed last, and asks to start, whatever
/// badge was highlighted and whatever was under way before.
#[verifier::rlimit(40)]
pub proof fn law_click_on_badge_opens(
    shell: &mut ClientShellState,
    mouse: MouseInput,
    outcome: &mut ClientShellInput,
    resolved: Option<PopupGeometry>,
    opened: bool,
    k: int,
    cols: u16,
    rows: u16,
    rects: (Rect, Rect, Rect),
)
    requires
        call_ensures(
            ClientShellState::handle_auth_badge_event,
            (shell, &RawInputEvent::Mouse(mouse), outcome, resolved),
            opened,
        ),
        mouse.kind == MouseEventKind::Down(MouseButton::Left),
        !is_covered(*old(shell), (mouse.column, mouse.row)),
        is_badge_at(*old(shell), (mouse.column, mouse.row), k),
        match old(shell).last_composed_size {
            Some(size) => (cols, rows) == size,
            None => cols == 80 && rows == 24,
        },
        call_ensures(geometry, (cols, rows, resolved), rects),
    ensures
        opened,
        ({
            let id = old(shell).hits.machines@[k].endpoint_id@;
            &&& has_fresh_popup(*final(shell), id)
            &&& is_laid_out(*final(shell), rects)
            &&& is_idle(*final(shell))
            &&& final(shell).auth.hover is None
            &&& same_surroundings(*old(shell), *final(shell))
            &&& final(outcome).repaint
            &&& final(outcome).actions@.len() == old(outcome).actions@.len() + 1
            &&& final(outcome).actions@.last() matches ClientShellAction::SshAuth(
                SshAuthCommand::Start { endpoint_id, cols, rows },
            )
            &&& endpoint_id@ == id
            &&& (cols, rows) == final(shell).auth.popup->0.size
        }),
        keeps_actions(*old(outcome), *final(outcome)),
{
    lemma_badge_at(*old(shell), (mouse.column, mouse.row));
    lemma_action_views(*old(outcome), *final(outcome));
}

/// The actions from before still stand first, in order.
pub open spec fn keeps_actions(before: ClientShellInput, after: ClientShellInput) -> bool {
    &&& before.actions@.len() <= after.actions@.len()
    &&& forall|i: int|
        #![trigger after.actions@[i]]
        0 <= i < before.actions@.len() ==> after.actions@[i]@ == before.actions@[i]@
}

proof fn lemma_action_views(before: ClientShellInput, after: ClientShellInput)
    ensures
        before@.actions.len() == before.actions@.len(),
        after@.actions.len() == after.actions@.len(),
        forall|i: int|
            0 <= i < before.actions@.len() ==> #[trigger] before@.actions[i]
                == before.actions@[i]@,
        forall|i: int|
            #![trigger after@.actions[i]]
            #![trigger after.actions@[i]]
            0 <= i < after.actions@.len() ==> after@.actions[i] == after.actions@[i]@,
        after@.actions == before@.actions ==> keeps_actions(before, after),
        after.actions@.len() > before.actions@.len() && after@.actions.drop_last()
            == before@.actions ==> keeps_actions(before, after),
{
    if after@.actions.len() > before@.actions.len() && after@.actions.drop_last()
        == before@.actions {
        assert forall|i: int|
            #![trigger after.actions@[i]]
            0 <= i < before.actions@.len() implies after.actions@[i]@ == before.actions@[i]@ by {
            assert(after@.actions.drop_last()[i] == after@.actions[i]);
            assert(before@.actions[i] == before.actions@[i]@);
        }
    }
    if after@.actions == before@.actions {
        assert forall|i: int|
            #![trigger after.actions@[i]]
            0 <= i < before.actions@.len() implies after.actions@[i]@ == before.actions@[i]@ by {
            assert(before@.actions[i] == before.actions@[i]@);
        }
    }
}

/// The pointer highlights the badge below it, if that asks for authentication and nothing covers it,
/// and no other; the screen is repainted where that changes. Nothing is opened.
pub proof fn law_pointer_highlights_badge(
    shell: &mut ClientShellState,
    mouse: MouseInput,
    outcome: &mut ClientShellInput,
    resolved: Option<PopupGeometry>,
    opened: bool,
    k: int,
)
    requires
        call_ensures(
            ClientShellState::handle_auth_badge_event,
            (shell, &RawInputEvent::Mouse(mouse), outcome, resolved),
            opened,
        ),
        mouse.kind == MouseEventKind::Moved,
        !is_covered(*old(shell), (mouse.column, mouse.row)),
    ensures
        !opened,
        is_badge_at(*old(shell), (mouse.column, mouse.row), k) ==> {
            let id = old(shell).hits.machines@[k].endpoint_id@;
            &&& final(shell).auth.hover matches Some(hover) && hover@ == id
            &&& final(outcome).repaint == (old(outcome).repaint || !(old(
                shell,
            ).auth.hover matches Some(hover) && hover@ == id))
        },
        has_no_badge_at(*old(shell), (mouse.column, mouse.row)) ==> {
            &&& final(shell).auth.hover is None
            &&& final(outcome).repaint == (old(outcome).repaint || old(shell).auth.hover is Some)
        },
        only_popup_stays(*old(shell), *final(shell)),
        final(outcome).actions@.len() == old(outcome).actions@.len(),
        keeps_actions(*old(outcome), *final(outcome)),
{
    lemma_badge_at(*old(shell), (mouse.column, mouse.row));
    lemma_action_views(*old(outcome), *final(outcome));
}

/// Nothing but the highlighted badge differs.
pub open spec fn only_popup_stays(before: ClientShellState, after: ClientShellState) -> bool {
    &&& after == (ClientShellState { auth: after.auth, ..before })
    &&& after.auth@.required == before.auth@.required
    &&& after.auth@.popup == before.auth@.popup
}

/// Below something that covers it no badge is highlighted, and nothing is opened; the screen is
/// repainted where a badge was highlighted.
pub proof fn law_covered_badges_rest(
    shell: &mut ClientShellState,
    mouse: MouseInput,
    outcome: &mut ClientShellInput,
    resolved: Option<PopupGeometry>,
    opened: bool,
)
    requires
        call_ensures(
            ClientShellState::handle_auth_badge_event,
            (shell, &RawInputEvent::Mouse(mouse), outcome, resolved),
            opened,
        ),
        is_covered(*old(shell), (mouse.column, mouse.row)),
    ensures
        !opened,
        final(shell).auth.hover is None,
        only_popup_stays(*old(shell), *final(shell)),
        final(outcome).repaint == (old(outcome).repaint || old(shell).auth.hover is Some),
        final(outcome).actions@.len() == old(outcome).actions@.len(),
        keeps_actions(*old(outcome), *final(outcome)),
{
    lemma_action_views(*old(outcome), *final(outcome));
}

/// Any other event leaves everything as it is: a click beside the badges, another button, and all
/// that is no mouse event.
pub proof fn law_other_events_leave_badges(
    shell: &mut ClientShellState,
    event: RawInputEvent,
    outcome: &mut ClientShellInput,
    resolved: Option<PopupGeometry>,
    opened: bool,
)
    requires
        call_ensures(
            ClientShellState::handle_auth_badge_event,
            (shell, &event, outcome, resolved),
            opened,
        ),
        event matches RawInputEvent::Mouse(mouse) ==> {
            &&& !is_covered(*old(shell), (mouse.column, mouse.row))
            &&& mouse.kind != MouseEventKind::Moved
            &&& mouse.kind == MouseEventKind::Down(MouseButton::Left) ==> has_no_badge_at(
                *old(shell),
                (mouse.column, mouse.row),
            )
        },
    ensures
        !opened,
        *final(shell) == *old(shell),
        final(outcome).repaint == old(outcome).repaint,
        final(outcome).actions@.len() == old(outcome).actions@.len(),
        keeps_actions(*old(outcome), *final(outcome)),
{
    if let RawInputEvent::Mouse(mouse) = event {
        lemma_badge_at(*old(shell), (mouse.column, mouse.row));
    }
    lemma_action_views(*old(outcome), *final(outcome));
}

/// The badge is that of the machine.
pub open spec fn is_badge_of(badge: (Rect, &ClientEndpointId), hit: MachineHit) -> bool {
    badge.0 == hit.status_badge && badge.1@ == hit.endpoint_id@
}

/// One of the machines on the screen asks for authentication, and the badge is its own.
pub open spec fn is_of_one_that_asks(
    badge: (Rect, &ClientEndpointId),
    shell: ClientShellState,
) -> bool {
    exists|k: int|
        0 <= k < shell.hits.machines@.len() && badge_asks(shell, shell.hits.machines@[k])
            && #[trigger] is_badge_of(badge, shell.hits.machines@[k])
}

/// One of the badges is that of the machine.
pub open spec fn has_badge_of(badges: Seq<(Rect, &ClientEndpointId)>, hit: MachineHit) -> bool {
    exists|i: int| 0 <= i < badges.len() && #[trigger] is_badge_of(badges[i], hit)
}

/// The badges are those of the machines on the screen that ask for authentication: each of these is
/// there, and no other.
#[verifier::rlimit(40)]
pub proof fn law_badges_are_those_that_ask(
    shell: ClientShellState,
    badges: Vec<(Rect, &ClientEndpointId)>,
)
    requires
        call_ensures(ClientShellState::auth_badges, (&shell,), badges),
    ensures
        forall|k: int|
            0 <= k < shell.hits.machines@.len() && badge_asks(
                shell,
                #[trigger] shell.hits.machines@[k],
            ) ==> has_badge_of(badges@, shell.hits.machines@[k]),
        forall|i: int|
            0 <= i < badges@.len() ==> is_of_one_that_asks(#[trigger] badges@[i], shell),
{
    let hits = shell.hits.machines@;
    let offered = |hit: MachineHit| shell.offers(&hit);
    let as_badge = |hit: MachineHit| (hit.status_badge, hit.endpoint_id@);
    let as_view = |badge: (Rect, &ClientEndpointId)| (badge.0, badge.1@);
    let kept = hits.filter(offered);
    let views = badges@.map_values(as_view);
    assert(views == kept.map_values(as_badge));
    assert forall|k: int| 0 <= k < hits.len() && badge_asks(
        shell,
        #[trigger] hits[k],
    ) implies has_badge_of(badges@, hits[k]) by {
        lemma_badge_asks(shell, hits[k]);
        hits.lemma_filter_contains(offered, k);
        let i = choose|i: int| 0 <= i < kept.len() && kept[i] == hits[k];
        assert(views[i] == as_badge(kept[i]));
        assert(views[i] == as_view(badges@[i]));
        assert(is_badge_of(badges@[i], hits[k]));
    }
    assert forall|i: int| 0 <= i < badges@.len() implies is_of_one_that_asks(
        #[trigger] badges@[i],
        shell,
    ) by {
        assert(views[i] == as_view(badges@[i]));
        assert(views[i] == as_badge(kept[i]));
        hits.lemma_filter_pred(offered, i);
        hits.lemma_filter_contains_rev(offered, kept[i]);
        let k = choose|k: int| 0 <= k < hits.len() && hits[k] == kept[i];
        lemma_badge_asks(shell, hits[k]);
        assert(is_badge_of(badges@[i], hits[k]));
    }
}

/// The badges are in the order of the machines on the screen: with one machine more there is its
/// badge behind the others, if it asks for authentication, and they are the same otherwise. Without
/// machines there is none.
#[verifier::rlimit(40)]
pub proof fn law_badges_in_order(
    shell: ClientShellState,
    longer: ClientShellState,
    hit: MachineHit,
    badges: Vec<(Rect, &ClientEndpointId)>,
    more: Vec<(Rect, &ClientEndpointId)>,
)
    requires
        call_ensures(ClientShellState::auth_badges, (&shell,), badges),
        call_ensures(ClientShellState::auth_badges, (&longer,), more),
        longer.auth == shell.auth,
        longer.endpoints == shell.endpoints,
        longer.hits.machines@ == shell.hits.machines@.push(hit),
    ensures
        shell.hits.machines@.len() == 0 ==> badges@.len() == 0,
        more@.len() == badges@.len() + if badge_asks(shell, hit) {
            1int
        } else {
            0
        },
        forall|i: int|
            0 <= i < badges@.len() ==> (#[trigger] more@[i]).0 == badges@[i].0 && more@[i].1@
                == badges@[i].1@,
        badge_asks(shell, hit) ==> is_badge_of(more@.last(), hit),
{
    let offered = |hit: MachineHit| shell.offers(&hit);
    let offered_longer = |hit: MachineHit| longer.offers(&hit);
    assert(offered =~= offered_longer);
    let as_badge = |hit: MachineHit| (hit.status_badge, hit.endpoint_id@);
    let as_view = |badge: (Rect, &ClientEndpointId)| (badge.0, badge.1@);
    let hits = shell.hits.machines@;
    let views = badges@.map_values(as_view);
    let more_views = more@.map_values(as_view);
    assert(views == hits.filter(offered).map_values(as_badge));
    assert(more_views == hits.push(hit).filter(offered).map_values(as_badge));
    hits.lemma_filter_push(hit, offered);
    lemma_badge_asks(shell, hit);
    let kept = hits.filter(offered);
    let kept_more = hits.push(hit).filter(offered);
    assert(kept_more == if badge_asks(shell, hit) { kept.push(hit) } else { kept });
    assert(views.len() == badges@.len() && views.len() == kept.len());
    assert(more_views.len() == more@.len() && more_views.len() == kept_more.len());
    if hits.len() == 0 {
        assert(kept.len() == 0) by {
            reveal(Seq::filter);
        }
    }
    assert forall|i: int| 0 <= i < badges@.len() implies (#[trigger] more@[i]).0 == badges@[i].0
        && more@[i].1@ == badges@[i].1@ by {
        assert(views[i] == as_view(badges@[i]));
        assert(more_views[i] == as_view(more@[i]));
        assert(kept_more[i] == kept[i]);
        assert(views[i] == as_badge(kept[i]));
        assert(more_views[i] == as_badge(kept_more[i]));
    }
    if badge_asks(shell, hit) {
        assert(more_views.last() == as_badge(hit));
        assert(more_views.last() == as_view(more@.last()));
    }
}

/// Asking for authentication is set or taken back for one machine, and for no other.
pub proof fn law_asking_is_of_one_machine(
    shell: &mut ClientShellState,
    id: ClientEndpointId,
    required: bool,
    other: EndpointIdView,
)
    requires
        call_ensures(ClientShellState::set_endpoint_auth_required, (shell, &id, required), ()),
    ensures
        is_listed(final(shell).auth.required@, other) == if other == id@ {
            required
        } else {
            is_listed(old(shell).auth.required@, other)
        },
        *final(shell) == (ClientShellState { auth: final(shell).auth, ..*old(shell) }),
        final(shell).auth@.hover == old(shell).auth@.hover,
        final(shell).auth@.popup == old(shell).auth@.popup,
{
    lemma_listed(final(shell).auth, other);
    lemma_listed(old(shell).auth, other);
}

proof fn lemma_listed(auth: AuthPresentation, id: EndpointIdView)
    ensures
        is_listed(auth.required@, id) == auth@.required.contains(id),
{
    if is_listed(auth.required@, id) {
        let j = choose|j: int|
            0 <= j < auth.required@.len() && (#[trigger] auth.required@[j])@ == id;
        assert(crate::shell::auth::lists(auth.required@, id));
    }
    if crate::shell::auth::lists(auth.required@, id) {
        let j = choose|j: int|
            0 <= j < auth.required@.len() && (#[trigger] auth.required@[j])@ == id;
        assert(is_listed(auth.required@, id));
    }
}

/// A machine asks for authentication where it is not this one, wants attention, and is listed.
pub proof fn law_required_for(
    auth: AuthPresentation,
    endpoint: ClientShellEndpoint,
    required: bool,
)
    requires
        call_ensures(AuthPresentation::required_for, (&auth, &endpoint), required),
    ensures
        required == (endpoint.endpoint_id@ is Ssh && endpoint.status
            == ClientEndpointStatus::Attention && is_listed(
            auth.required@,
            endpoint.endpoint_id@,
        )),
{
    lemma_listed(auth, endpoint.endpoint_id@);
}

/// A badge that asks for authentication is bold, and one that is highlighted too is reversed on the
/// colour of the active row; all other bits and colours are as they were. A badge that does not ask
/// keeps its style.
pub proof fn law_badge_style(
    auth: AuthPresentation,
    endpoint: ClientShellEndpoint,
    palette: Palette,
    style: Style,
    badge: Style,
)
    requires
        call_ensures(AuthPresentation::badge_style, (&auth, &endpoint, &palette, style), badge),
    ensures
        ({
            let asks = endpoint.endpoint_id@ is Ssh && endpoint.status
                == ClientEndpointStatus::Attention && is_listed(
                auth.required@,
                endpoint.endpoint_id@,
            );
            let highlighted = auth.hover matches Some(hover) && hover@ == endpoint.endpoint_id@;
            &&& !asks ==> badge == style
            &&& badge.fg == style.fg
            &&& badge.underline_color == style.underline_color
            &&& asks ==> badge.add_modifier & 0x01 == 0x01 && badge.sub_modifier & 0x01 == 0
            &&& asks && highlighted ==> {
                &&& badge.bg == Some(palette.active_row_bg)
                &&& badge.add_modifier == style.add_modifier | 0x41
                &&& badge.sub_modifier == style.sub_modifier & 0xffbe
            }
            &&& asks && !highlighted ==> {
                &&& badge.bg == style.bg
                &&& badge.add_modifier == style.add_modifier | 0x01
                &&& badge.sub_modifier == style.sub_modifier & 0xfffe
            }
        }),
{
    lemma_listed(auth, endpoint.endpoint_id@);
    let a = style.add_modifier;
    let b = style.sub_modifier;
    assert((a | 0x01u16) | 0x40u16 == a | 0x41u16) by (bit_vector);
    assert((b & !0x01u16) & !0x40u16 == b & 0xffbeu16) by (bit_vector);
    assert(b & !0x01u16 == b & 0xfffeu16) by (bit_vector);
    assert((a | 0x01u16) & 0x01u16 == 0x01u16) by (bit_vector);
    assert((a | 0x41u16) & 0x01u16 == 0x01u16) by (bit_vector);
    assert((b & 0xfffeu16) & 0x01u16 == 0u16) by (bit_vector);
    assert((b & 0xffbeu16) & 0x01u16 == 0u16) by (bit_vector);
}

/// A popup asks for four fifths of the columns and 55 of a hundred rows of the whole screen.
pub proof fn law_popup_request(cols: u16, rows: u16, request: PopupRequest)
    requires
        call_ensures(popup_request, (cols, rows), request),
    ensures
        request.width == PopupSize::Percent(80),
        request.height == PopupSize::Percent(55),
        request.area.x == 0 && request.area.y == 0,
        request.area.width == cols && request.area.height == rows,
{
}

/// The parts of a popup, from the top down: the terminal, the hint, and a row for the button, which
/// is twelve columns wide at most. The hint has the rows that its lines take, but two rows are left
/// beside it. Where there is no room for a popup the terminal takes the screen, without a button.
pub proof fn law_parts_of_a_popup(
    cols: u16,
    rows: u16,
    resolved: Option<PopupGeometry>,
    hint_lines: usize,
    rects: (Rect, Rect, Rect),
)
    requires
        call_ensures(geometry_with_hint, (cols, rows, resolved, hint_lines), rects),
        resolved matches Some(g) ==> g.inner.fits(),
    ensures
        ({
            let (outer, terminal, cancel) = rects;
            match resolved {
                None => {
                    &&& outer == Rect { x: 0, y: 0, width: cols, height: rows }
                    &&& terminal == outer
                    &&& cancel.width == 0 && cancel.height == 0
                },
                Some(g) => {
                    let hint: int = if g.inner.height < 2 {
                        0
                    } else if hint_lines <= g.inner.height - 2 {
                        hint_lines as int
                    } else {
                        g.inner.height - 2
                    };
                    &&& outer == g.outer
                    &&& terminal.x == g.inner.x && terminal.y == g.inner.y
                    &&& terminal.width == g.inner.width
                    &&& g.inner.height >= 1 ==> {
                        &&& terminal.height + hint + 1 == g.inner.height
                        &&& cancel.y == g.inner.y + g.inner.height - 1
                    }
                    &&& g.inner.height == 0 ==> terminal.height == 0
                    &&& cancel.x == g.inner.x
                    &&& cancel.width == if g.inner.width <= 12 { g.inner.width } else { 12 }
                    &&& g.inner.height >= 1 ==> cancel.height == 1
                },
            }
        }),
{
}

/// The parts of a popup are those for the hint as it wraps to the popup's width.
pub proof fn law_hint_is_wrapped(
    cols: u16,
    rows: u16,
    resolved: Option<PopupGeometry>,
    hint_lines: usize,
    rects: (Rect, Rect, Rect),
    with_hint: (Rect, Rect, Rect),
)
    requires
        call_ensures(geometry, (cols, rows, resolved), rects),
        call_ensures(geometry_with_hint, (cols, rows, resolved, hint_lines), with_hint),
        resolved matches Some(g) ==> hint_lines == wrapped_line_count(
            "Your input is hidden. Type your code and press Enter."@,
            g.inner.width,
        ),
    ensures
        rects == with_hint,
{
}

/// A popup opens for the machine that it is asked for, laid out on the screen composed last, or on
/// one of 80 columns and 24 rows before any; it ends whatever else was under way.
pub proof fn law_popup_opens(
    shell: &mut ClientShellState,
    endpoint: ClientEndpointId,
    resolved: Option<PopupGeometry>,
    cols: u16,
    rows: u16,
    rects: (Rect, Rect, Rect),
    screen: (u16, u16),
    shell_before: ClientShellState,
)
    requires
        call_ensures(ClientShellState::open_auth_popup, (shell, endpoint, resolved), ())
            || call_ensures(
            ClientShellState::open_auth_popup_for_test,
            (shell, endpoint, resolved),
            (),
        ),
        shell_before == *old(shell),
        call_ensures(ClientShellState::auth_popup_screen, (&shell_before,), screen),
        match old(shell).last_composed_size {
            Some(size) => (cols, rows) == size,
            None => cols == 80 && rows == 24,
        },
        call_ensures(geometry, (cols, rows, resolved), rects),
    ensures
        screen == (cols, rows),
        has_fresh_popup(*final(shell), endpoint@),
        is_idle(*final(shell)),
        final(shell).auth.hover is None,
        same_surroundings(*old(shell), *final(shell)),
        is_laid_out(*final(shell), rects),
{
}

/// The popup's rectangle is the outer one of its parts, while it is open.
pub proof fn law_popup_rect(
    shell: ClientShellState,
    cols: u16,
    rows: u16,
    resolved: Option<PopupGeometry>,
    rects: (Rect, Rect, Rect),
    rect: Option<Rect>,
)
    requires
        call_ensures(ClientShellState::auth_popup_rect, (&shell, cols, rows, resolved), rect),
        call_ensures(geometry, (cols, rows, resolved), rects),
    ensures
        rect == if shell.auth.popup is Some { Some(rects.0) } else { None },
{
}

/// The shell tells for which machine the popup is open, and how large its terminal is.
pub proof fn law_popup_is_told(
    shell: ClientShellState,
    endpoint: Option<&ClientEndpointId>,
    size: Option<(u16, u16)>,
)
    requires
        call_ensures(ClientShellState::auth_popup_endpoint, (&shell,), endpoint),
        call_ensures(ClientShellState::auth_popup_size, (&shell,), size),
    ensures
        match shell.auth.popup {
            Some(popup) => {
                &&& endpoint matches Some(id) && id@ == popup.endpoint@
                &&& size == Some(popup.size)
            },
            None => endpoint is None && size is None,
        },
{
}

/// What the terminal shows is shown while the popup authenticates, without control characters; a
/// popup that verifies or has failed keeps what it shows.
pub proof fn law_popup_shows_the_terminal(
    shell: &mut ClientShellState,
    text: String,
    cursor: Option<(u16, u16)>,
    filtered: String,
)
    requires
        call_ensures(ClientShellState::update_auth_popup, (shell, text, cursor), ()),
        call_ensures(safe_text, (text,), filtered),
    ensures
        only_popup_differs(*old(shell), *final(shell)),
        old(shell).auth.popup matches Some(popup) ==> {
            &&& final(shell).auth.popup matches Some(now)
            &&& now.phase == popup.phase
            &&& if popup.phase == Phase::Authenticating {
                &&& now.text@ == filtered@
                &&& has_no_controls(now.text@)
                &&& has_no_controls(text@) ==> now.text@ == text@
                &&& now.cursor == cursor
            } else {
                now.text@ == popup.text@ && now.cursor == popup.cursor
            }
        },
{
    lemma_filtered(text@);
}

pub(crate) proof fn lemma_filtered(s: Seq<char>)
    ensures
        has_no_controls(safe_chars(s)),
        has_no_controls(s) ==> safe_chars(s) == s,
{
    law_safe_text(s);
    let shown = safe_chars(s);
    assert forall|i: int| 0 <= i < shown.len() implies (#[trigger] shown[i]) == '\n' || 0x20
        <= shown[i] as u32 <= 0x7e || shown[i] as u32 >= 0xa0 by {
        assert(is_safe_char(shown[i]));
    }
    if has_no_controls(s) {
        lemma_unfiltered(s);
    }
}

/// A popup that verifies says so, whatever it showed, and has no cursor.
pub proof fn law_popup_verifies(shell: &mut ClientShellState)
    requires
        call_ensures(ClientShellState::auth_popup_verifying, (shell,), ()),
    ensures
        only_popup_differs(*old(shell), *final(shell)),
        final(shell).auth.popup matches Some(popup) ==> popup.phase == Phase::Verifying
            && popup.cursor is None && popup.text@ == "Verifying connection…"@,
{
}

/// A popup that fails says so and gives the reason above what it showed before, and has no cursor.
pub proof fn law_popup_fails(
    shell: &mut ClientShellState,
    message: String,
    output: &str,
    told: String,
)
    requires
        call_ensures(ClientShellState::auth_popup_failed, (shell, message), ()),
        old(shell).auth.popup matches Some(popup) ==> output@ == popup.text@ && call_ensures(
            failure_text,
            (message, output, popup.size.1),
            told,
        ),
    ensures
        only_popup_differs(*old(shell), *final(shell)),
        final(shell).auth.popup matches Some(popup) ==> {
            &&& popup.phase == Phase::Failed
            &&& popup.cursor is None
            &&& popup.text@ == told@
            &&& is_shown_in_full(message@) ==> begins_with(
                popup.text@,
                message@ + seq!['\n', '\n'],
            )
        },
{
    if is_shown_in_full(message@) {
        if let Some(popup) = old(shell).auth@.popup {
            lemma_reason(message@, popup.text, popup.size.1);
        }
    }
}

/// A popup that is closed is gone, and nothing else.
pub proof fn law_popup_closes(shell: &mut ClientShellState)
    requires
        call_ensures(ClientShellState::close_auth_popup, (shell,), ()),
    ensures
        final(shell).auth.popup is None,
        *final(shell) == (ClientShellState { auth: final(shell).auth, ..*old(shell) }),
        final(shell).auth@.required == old(shell).auth@.required,
        final(shell).auth@.hover == old(shell).auth@.hover,
{
}

/// What is logged of a command tells which one it is, and nothing of what was typed.
pub proof fn law_log_text(
    command: SshAuthCommand,
    other: SshAuthCommand,
    text: &'static str,
    other_text: &'static str,
)
    requires
        call_ensures(SshAuthCommand::debug_text, (&command,), text),
        call_ensures(SshAuthCommand::debug_text, (&other,), other_text),
    ensures
        command is Start && other is Start || command is Input && other is Input || command
            is Cancel && other is Cancel ==> text@ == other_text@,
        text@ == match command {
            SshAuthCommand::Start { .. } => "SshAuth::Start"@,
            SshAuthCommand::Input(_) => "SshAuth::Input([redacted])"@,
            SshAuthCommand::Cancel => "SshAuth::Cancel"@,
        },
{
}

} // verus!
