//! What is painted of the popup.
use ratatui::buffer::Buffer;
use vstd::prelude::*;

use crate::endpoint::EndpointIdView;
use crate::laws::attempt::{has_no_controls, is_first_listed};
use crate::laws::popup::lemma_filtered;
use crate::rect::Rect;
use crate::shell::auth::{geometry, Phase, PopupGeometry};
use crate::shell::frame::{
    block_drawn, buffer_area, buffer_cells, cleared, columns, label_of, paragraph_drawn,
    place_cursor, popup_title, CursorState, FrameData,
};
use crate::shell::{ClientShellEndpoint, ClientShellState};
use crate::text::{lines, safe_text, split_lines};

verus! {

proof fn lemma_label_of_first(endpoints: Seq<ClientShellEndpoint>, id: EndpointIdView, i: int)
    requires
        is_first_listed(endpoints, id, i),
    ensures
        label_of(endpoints, id) == endpoints[i].label@,
    decreases i,
{
    if i > 0 {
        assert(endpoints[0].endpoint_id@ != id);
        let rest = endpoints.drop_first();
        assert forall|j: int| 0 <= j < i - 1 implies (#[trigger] rest[j]).endpoint_id@ != id by {
            assert(rest[j] == endpoints[j + 1]);
        }
        lemma_label_of_first(rest, id, i - 1);
    }
}

proof fn lemma_label_of_none(endpoints: Seq<ClientShellEndpoint>, id: EndpointIdView)
    requires
        forall|j: int| 0 <= j < endpoints.len() ==> (#[trigger] endpoints[j]).endpoint_id@ != id,
    ensures
        label_of(endpoints, id) == "SSH"@,
    decreases endpoints.len(),
{
    if endpoints.len() > 0 {
        let rest = endpoints.drop_first();
        assert forall|j: int| 0 <= j < rest.len() implies (#[trigger] rest[j]).endpoint_id@
            != id by {
            assert(rest[j] == endpoints[j + 1]);
        }
        lemma_label_of_none(rest, id);
    }
}

/// The word for a phase.
pub open spec fn word_for(phase: Phase) -> Seq<char> {
    match phase {
        Phase::Authenticating => "Authentication"@,
        Phase::Verifying => "Verifying"@,
        Phase::Failed => "Failed"@,
    }
}

/// The title is the label and the word for the phase, with blanks around, filtered.
pub proof fn law_title_is_filtered(
    label: &str,
    phase: Phase,
    title: String,
    words: String,
    filtered: String,
)
    requires
        call_ensures(popup_title, (label, phase), title),
        words@ == " "@ + label@ + " — "@ + word_for(phase) + " "@,
        call_ensures(safe_text, (words,), filtered),
    ensures
        title@ == filtered@,
{
}

/// The title names the machine and the phase, with blanks around; control characters of the label
/// are left out.
pub proof fn law_title_names_machine_and_phase(label: &str, phase: Phase, title: String)
    requires
        call_ensures(popup_title, (label, phase), title),
    ensures
        has_no_controls(label@) ==> title@ == " "@ + label@ + " — "@ + word_for(phase) + " "@,
        has_no_controls(title@),
{
    let whole = " "@ + label@ + " — "@ + word_for(phase) + " "@;
    lemma_filtered(whole);
    if has_no_controls(label@) {
        lemma_title_is_plain(phase);
        lemma_joined_plain(" "@, label@);
        lemma_joined_plain(" "@ + label@, " — "@);
        lemma_joined_plain(" "@ + label@ + " — "@, word_for(phase));
        lemma_joined_plain(" "@ + label@ + " — "@ + word_for(phase), " "@);
    }
}

/// What stands around the label has no control characters.
proof fn lemma_title_is_plain(phase: Phase)
    ensures
        has_no_controls(" "@),
        has_no_controls(" — "@),
        has_no_controls(word_for(phase)),
{
    reveal_strlit(" ");
    reveal_strlit(" — ");
    reveal_strlit("Authentication");
    reveal_strlit("Verifying");
    reveal_strlit("Failed");
}

proof fn lemma_joined_plain(a: Seq<char>, b: Seq<char>)
    requires
        has_no_controls(a),
        has_no_controls(b),
    ensures
        has_no_controls(a + b),
{
    let s = a + b;
    assert forall|i: int| 0 <= i < s.len() implies (#[trigger] s[i]) == '\n' || 0x20
        <= s[i] as u32 <= 0x7e || s[i] as u32 >= 0xa0 by {
        if i < a.len() {
            assert(s[i] == a[i]);
        } else {
            assert(s[i] == b[i - a.len()]);
        }
    }
}

/// The cursor is shown exactly where it lies in the terminal, at its place there, visible.
pub proof fn law_cursor_is_placed(
    cursor: Option<(u16, u16)>,
    terminal: Rect,
    placed: Option<CursorState>,
)
    requires
        call_ensures(place_cursor, (cursor, terminal), placed),
        terminal.x + terminal.width <= 0xffff && terminal.y + terminal.height <= 0xffff,
    ensures
        placed is Some <==> (cursor matches Some(at) && at.0 < terminal.width && at.1
            < terminal.height),
        (placed, cursor) matches (Some(now), Some(at)) ==> now.x == terminal.x + at.0 && now.y
            == terminal.y + at.1 && now.visible && now.shape == 1,
{
}

/// A frame is of the buffer's cells and the cursor given; there is none where cells are missing or
/// too many.
pub proof fn law_frame_is_whole(
    buffer: Buffer,
    cursor: Option<CursorState>,
    frame: Option<FrameData>,
)
    requires
        call_ensures(FrameData::new, (buffer, cursor), frame),
    ensures
        frame is Some <==> buffer_cells(buffer).len() == buffer_area(buffer).width * buffer_area(
            buffer,
        ).height,
        frame matches Some(made) ==> made.buffer == buffer && made.cursor == cursor,
{
}

/// Without a popup nothing is painted, and nothing changes.
pub proof fn law_nothing_painted_without_popup(
    shell: &mut ClientShellState,
    frame: &mut FrameData,
    cols: u16,
    rows: u16,
    resolved: Option<PopupGeometry>,
)
    requires
        call_ensures(ClientShellState::compose_auth, (shell, frame, cols, rows, resolved), ()),
        old(shell).auth.popup is None,
    ensures
        *final(shell) == *old(shell),
        *final(frame) == *old(frame),
{
}

/// A popup of any usual width can be painted, whatever it shows.
pub proof fn law_usual_popups_can_be_painted(
    shell: ClientShellState,
    cols: u16,
    resolved: Option<PopupGeometry>,
    can: bool,
)
    requires
        call_ensures(ClientShellState::can_compose_auth, (&shell, cols, resolved), can),
        shell.auth.popup is None || (match resolved {
            Some(g) => g.inner.width <= 32767,
            None => cols <= 32767,
        }),
    ensures
        can,
{
}

proof fn lemma_columns_bounded(line: Seq<char>)
    ensures
        line.len() <= columns(line) <= 3 * line.len(),
        (forall|i: int| 0 <= i < line.len() ==> 0x20 <= (#[trigger] line[i]) as u32 <= 0x7e)
            ==> columns(line) == line.len(),
    decreases line.len(),
{
    if line.len() > 0 {
        lemma_columns_bounded(line.drop_last());
        if forall|i: int| 0 <= i < line.len() ==> 0x20 <= (#[trigger] line[i]) as u32 <= 0x7e {
            assert forall|i: int| 0 <= i < line.len() - 1 implies 0x20 <= (
            #[trigger] line.drop_last()[i]) as u32 <= 0x7e by {
                assert(line.drop_last()[i] == line[i]);
            }
            assert(0x20 <= line[line.len() - 1] as u32 <= 0x7e);
        }
    }
}

/// A popup of extreme width can be painted where each line that it shows has 21845 characters at
/// most, and cannot where one has more than 65535.
pub proof fn law_wide_popups_need_short_lines(
    shell: ClientShellState,
    cols: u16,
    resolved: Option<PopupGeometry>,
    can: bool,
    text: Vec<char>,
    split: Vec<Vec<char>>,
)
    requires
        call_ensures(ClientShellState::can_compose_auth, (&shell, cols, resolved), can),
        shell.auth.popup matches Some(popup) && text@ == popup.text@,
        call_ensures(split_lines, (&text,), split),
        match resolved {
            Some(g) => g.inner.width > 32767,
            None => cols > 32767,
        },
    ensures
        (forall|i: int| 0 <= i < split@.len() ==> (#[trigger] split@[i])@.len() <= 21845) ==> can,
        (exists|i: int| 0 <= i < split@.len() && (#[trigger] split@[i])@.len() > 65535) ==> !can,
{
    let ls = lines(text@);
    assert(split.deep_view() == ls);
    assert forall|i: int| 0 <= i < split@.len() implies #[trigger] ls[i] == split@[i]@ by {
        assert(split.deep_view()[i] == split@[i].deep_view());
        assert(split@[i].deep_view() =~= split@[i]@);
    }
    assert(ls.len() == split@.len());
    if forall|i: int| 0 <= i < split@.len() ==> (#[trigger] split@[i])@.len() <= 21845 {
        assert forall|i: int| 0 <= i < ls.len() implies columns(#[trigger] ls[i]) <= 65535 by {
            lemma_columns_bounded(ls[i]);
            assert(split@[i]@.len() <= 21845);
        }
    }
    if exists|i: int| 0 <= i < split@.len() && (#[trigger] split@[i])@.len() > 65535 {
        let i = choose|i: int| 0 <= i < split@.len() && (#[trigger] split@[i])@.len() > 65535;
        lemma_columns_bounded(ls[i]);
        assert(columns(ls[i]) > 65535);
    }
}

/// What is painted of a popup, in this order: the ground is cleared; the border with the title, in
/// the colours of the palette; the text in the terminal; the hint below it, wrapped, as long as the
/// popup authenticates; and the cancel button last. `label` is that of the machine, or "SSH" where
/// the machine is not listed.
#[verifier::rlimit(40)]
pub proof fn law_popup_is_painted(
    shell: &mut ClientShellState,
    frame: &mut FrameData,
    cols: u16,
    rows: u16,
    resolved: Option<PopupGeometry>,
    rects: (Rect, Rect, Rect),
    label: &str,
    title: String,
    hint: Rect,
    i: int,
)
    requires
        call_ensures(ClientShellState::compose_auth, (shell, frame, cols, rows, resolved), ()),
        call_ensures(geometry, (cols, rows, resolved), rects),
        old(shell).auth.popup is Some,
        call_ensures(popup_title, (label, old(shell).auth.popup->0.phase), title),
        ({
            let id = old(shell).auth.popup->0.endpoint@;
            ||| is_first_listed(old(shell).endpoints@, id, i) && label@ == old(
                shell,
            ).endpoints@[i].label@
            ||| (forall|j: int|
                0 <= j < old(shell).endpoints@.len() ==> (#[trigger] old(
                    shell,
                ).endpoints@[j]).endpoint_id@ != id) && label@ == "SSH"@
        }),
        resolved matches Some(g) ==> g.inner.fits(),
        hint.x == rects.1.x && hint.y == rects.1.y + rects.1.height && hint.width == rects.1.width,
        hint.height == if rects.2.y >= rects.1.y + rects.1.height {
            rects.2.y - (rects.1.y + rects.1.height)
        } else {
            0
        },
        rects.1.x + rects.1.width <= 0xffff && rects.1.y + rects.1.height <= 0xffff,
    ensures
        ({
            let popup = old(shell).auth.popup->0;
            let palette = old(shell).config.palette;
            let area = buffer_area(old(frame).buffer);
            let ground = cleared(buffer_cells(old(frame).buffer), area, rects.0);
            let bordered = block_drawn(
                ground,
                area,
                rects.0,
                title@,
                palette.text.name@,
                palette.panel_bg.name@,
                palette.accent.name@,
            );
            let filled = paragraph_drawn(bordered, area, rects.1, popup.text@, None, false);
            let hinted = if popup.phase == Phase::Authenticating {
                paragraph_drawn(
                    filled,
                    area,
                    hint,
                    "Your input is hidden. Type your code and press Enter."@,
                    Some(palette.overlay0.name@),
                    true,
                )
            } else {
                filled
            };
            &&& buffer_cells(final(frame).buffer) == paragraph_drawn(
                hinted,
                area,
                rects.2,
                "[Cancel/Esc]"@,
                Some(palette.accent.name@),
                false,
            )
            &&& buffer_area(final(frame).buffer) == area
            &&& final(shell).auth.popup matches Some(now)
            &&& now.size.0 == if rects.1.width > 0 { rects.1.width } else { 1 }
            &&& now.size.1 == if rects.1.height > 0 { rects.1.height } else { 1 }
            &&& now.cancel == rects.2
            &&& now.endpoint@ == popup.endpoint@ && now.text@ == popup.text@ && now.phase
                == popup.phase && now.cursor == popup.cursor
            &&& *final(shell) == (ClientShellState { auth: final(shell).auth, ..*old(shell) })
            &&& final(shell).auth@.required == old(shell).auth@.required
            &&& final(shell).auth@.hover == old(shell).auth@.hover
        }),
        match old(shell).auth.popup->0.cursor {
            Some(at) if at.0 < rects.1.width && at.1 < rects.1.height => {
                &&& final(frame).cursor matches Some(now)
                &&& now.x == rects.1.x + at.0 && now.y == rects.1.y + at.1
                &&& now.visible && now.shape == 1
            },
            _ => final(frame).cursor is None,
        },
{
    let id = old(shell).auth.popup->0.endpoint@;
    if is_first_listed(old(shell).endpoints@, id, i) {
        lemma_label_of_first(old(shell).endpoints@, id, i);
    }
    if forall|j: int|
        0 <= j < old(shell).endpoints@.len() ==> (#[trigger] old(
            shell,
        ).endpoints@[j]).endpoint_id@ != id {
        lemma_label_of_none(old(shell).endpoints@, id);
    }
    assert(hint == crate::shell::frame::hint_rect(rects.1, rects.2));
}

} // verus!
