//! Painting a popup over a frame of terminal cells.
use ratatui::buffer::Buffer;
use ratatui::style::Style;
use ratatui::widgets::{Block, Borders, Clear, Paragraph, Widget, Wrap};
use vstd::prelude::*;

use crate::endpoint::EndpointIdView;
use crate::rect::{add_capped, max_one, sub_floored, Rect};
use crate::shell::auth::{
    auth_layout, geometry, layout, lemma_hint_is_plain, AuthPopup, Phase, PopupGeometry, PopupView, HIDDEN_INPUT_HINT,
};
use crate::shell::{ClientShellEndpoint, ClientShellState};
use crate::style::{Color, Palette};
use crate::text::{lines, safe_chars, safe_text, split_lines, to_chars};

verus! {

/// ratatui's grid of cells.
#[verifier::external_type_specification]
#[verifier::external_body]
pub struct ExBuffer(Buffer);

/// How a cell is treated when a buffer is copied to the screen.
pub enum DiffView {
    Plain,
    Skip,
    AlwaysUpdate,
    ForcedWidth(u16),
}

/// A cell: the grapheme it shows, its colours by their names, its modifier bits, and how it is
/// copied to the screen, by its option and by its older flag.
pub struct CellView {
    pub symbol: Seq<char>,
    pub fg: Seq<char>,
    pub bg: Seq<char>,
    pub underline: Seq<char>,
    pub modifiers: u16,
    pub diff: DiffView,
    pub skip: bool,
}

/// The cells of a buffer, row by row.
pub uninterp spec fn buffer_cells(buffer: Buffer) -> Seq<CellView>;

/// The area that a buffer was made for.
pub uninterp spec fn buffer_area(buffer: Buffer) -> Rect;

/// What painting a bordered block gives: `title` on its top border, the inside in `text` on
/// `panel`, the border in `accent`.
pub uninterp spec fn block_drawn(
    cells: Seq<CellView>,
    area: Rect,
    rect: Rect,
    title: Seq<char>,
    text: Seq<char>,
    panel: Seq<char>,
    accent: Seq<char>,
) -> Seq<CellView>;

/// What painting a paragraph gives: `text` from the top left of `rect` on, in `color` if there
/// is one, `wrapped` at words or cut at the right.
pub uninterp spec fn paragraph_drawn(
    cells: Seq<CellView>,
    area: Rect,
    rect: Rect,
    text: Seq<char>,
    color: Option<Seq<char>>,
    wrapped: bool,
) -> Seq<CellView>;

/// The number of lines that `text` takes when wrapped to `width` columns.
pub uninterp spec fn wrapped_line_count(text: Seq<char>, width: u16) -> nat;

/// There is a cell for each position of the area.
pub open spec fn is_whole(cells: Seq<CellView>, area: Rect) -> bool {
    cells.len() == area.width * area.height
}

pub open spec fn blank_cell() -> CellView {
    CellView {
        symbol: seq![' '],
        fg: "Reset"@,
        bg: "Reset"@,
        underline: "Reset"@,
        modifiers: 0,
        diff: DiffView::Plain,
        skip: false,
    }
}

/// The cell number `i` of a buffer for `area` lies in `rect`.
pub open spec fn cell_in(area: Rect, i: int, rect: Rect) -> bool {
    let column = area.x + i % (area.width as int);
    let row = area.y + i / (area.width as int);
    &&& rect.x <= column < add_capped(rect.x, rect.width)
    &&& rect.y <= row < add_capped(rect.y, rect.height)
}

/// `cells` with those of `rect` made blank.
pub open spec fn cleared(cells: Seq<CellView>, area: Rect, rect: Rect) -> Seq<CellView> {
    Seq::new(
        cells.len(),
        |i: int|
            if cell_in(area, i, rect) {
                blank_cell()
            } else {
                cells[i]
            },
    )
}

/// `after` is `before` but for cells of `rect`.
pub open spec fn only_in(
    before: Seq<CellView>,
    after: Seq<CellView>,
    area: Rect,
    rect: Rect,
) -> bool {
    &&& after.len() == before.len()
    &&& forall|i: int|
        0 <= i < before.len() && !cell_in(area, i, rect) ==> #[trigger] after[i] == before[i]
}

/// The widest rectangle that any text is painted in: twice its width still is a `u16`.
pub const WIDEST: u16 = 0x7fff;

/// The most columns that a line may take to be painted in any rectangle.
pub const MOST_COLUMNS: u64 = 0xffff;

/// The most columns that a character takes.
pub open spec fn columns_of(c: char) -> nat {
    if 0x20 <= c as u32 <= 0x7e {
        1
    } else if c as u32 == 0x17d8 {
        3
    } else {
        2
    }
}

/// The most columns that `line` takes.
pub open spec fn columns(line: Seq<char>) -> nat
    decreases line.len(),
{
    if line.len() == 0 {
        0
    } else {
        columns(line.drop_last()) + columns_of(line.last())
    }
}

/// The longest text that is wrapped.
pub const LONGEST_WRAPPED: usize = 4096;

/// No line of `text` takes more columns than may be painted in any rectangle.
pub open spec fn has_short_lines(text: Seq<char>) -> bool {
    forall|i: int| 0 <= i < lines(text).len() ==> columns(#[trigger] lines(text)[i]) <= MOST_COLUMNS
}

/// Adding up the widths of a line of `text` that is painted `width` columns wide stays a `u16`.
pub open spec fn is_paintable(text: Seq<char>, width: u16) -> bool {
    width <= WIDEST || has_short_lines(text)
}

/// Printable ASCII.
pub open spec fn is_plain(text: Seq<char>) -> bool {
    forall|i: int| 0 <= i < text.len() ==> 0x20 <= (#[trigger] text[i]) as u32 <= 0x7e
}

pub open spec fn color_view(color: Option<&Color>) -> Option<Seq<char>> {
    match color {
        Some(color) => Some(color.name@),
        None => None,
    }
}

/// `Buffer::content` gives the cells: as many as the named contents have.
#[verifier::external_body]
fn buffer_len(buffer: &Buffer) -> (len: usize)
    ensures
        len == buffer_cells(*buffer).len(),
{
    buffer.content().len()
}

/// `Buffer::area` gives the area of a buffer, whose four numbers are carried over.
#[verifier::external_body]
fn area_of(buffer: &Buffer) -> (area: Rect)
    ensures
        area == buffer_area(*buffer),
{
    let area = buffer.area();
    Rect { x: area.x, y: area.y, width: area.width, height: area.height }
}

/// `Clear::render` resets each cell of the buffer that lies in `rect`, and touches no other.
#[verifier::external_body]
fn draw_clear(buffer: &mut Buffer, rect: Rect)
    requires
        is_whole(buffer_cells(*old(buffer)), buffer_area(*old(buffer))),
    ensures
        buffer_area(*final(buffer)) == buffer_area(*old(buffer)),
        buffer_cells(*final(buffer)) == cleared(
            buffer_cells(*old(buffer)),
            buffer_area(*old(buffer)),
            rect,
        ),
{
    let Rect { x, y, width, height } = rect;
    Clear.render(ratatui::layout::Rect { x, y, width, height }, buffer)
}

/// `Block::render` with all borders, a title and three colours paints over the cells of the
/// buffer that lie in `rect`, and over no other; how is left to its name. A colour that
/// `Color::from_str` does not know counts as the reset colour.
#[verifier::external_body]
fn draw_block(
    buffer: &mut Buffer,
    rect: Rect,
    title: &str,
    text: &Color,
    panel: &Color,
    accent: &Color,
)
    requires
        is_whole(buffer_cells(*old(buffer)), buffer_area(*old(buffer))),
    ensures
        buffer_area(*final(buffer)) == buffer_area(*old(buffer)),
        only_in(
            buffer_cells(*old(buffer)),
            buffer_cells(*final(buffer)),
            buffer_area(*old(buffer)),
            rect,
        ),
        buffer_cells(*final(buffer)) == block_drawn(
            buffer_cells(*old(buffer)),
            buffer_area(*old(buffer)),
            rect,
            title@,
            text.name@,
            panel.name@,
            accent.name@,
        ),
{
    let Rect { x, y, width, height } = rect;
    let inside = Style::default()
        .fg(text.name.parse().unwrap_or_default())
        .bg(panel.name.parse().unwrap_or_default());
    let border = Style::default().fg(accent.name.parse().unwrap_or_default());
    Block::default()
        .borders(Borders::ALL)
        .title(title)
        .style(inside)
        .border_style(border)
        .render(ratatui::layout::Rect { x, y, width, height }, buffer)
}

/// `Paragraph::render` without wrapping paints `text` over the cells of the buffer that lie in
/// `rect`, and over no other; how is left to its name. It adds the width of a grapheme cluster to
/// that of its line in a `u16`, as far as the line fits in `rect`: so `rect` must not be too wide,
/// or else the lines not too long. A cluster is no wider than its characters together: of these,
/// printable ASCII takes a column, U+17D8 three, and any other two at most.
#[verifier::external_body]
fn draw_paragraph(buffer: &mut Buffer, rect: Rect, text: &str, color: Option<&Color>)
    requires
        is_whole(buffer_cells(*old(buffer)), buffer_area(*old(buffer))),
        is_paintable(text@, rect.width),
    ensures
        buffer_area(*final(buffer)) == buffer_area(*old(buffer)),
        only_in(
            buffer_cells(*old(buffer)),
            buffer_cells(*final(buffer)),
            buffer_area(*old(buffer)),
            rect,
        ),
        buffer_cells(*final(buffer)) == paragraph_drawn(
            buffer_cells(*old(buffer)),
            buffer_area(*old(buffer)),
            rect,
            text@,
            color_view(color),
            false,
        ),
{
    let Rect { x, y, width, height } = rect;
    let fg = color.map(|color| color.name.parse().unwrap_or_default());
    Paragraph::new(text)
        .style(Style { fg, ..Style::default() })
        .render(ratatui::layout::Rect { x, y, width, height }, buffer)
}

/// `Paragraph::render` with wrapping that keeps leading blanks paints `text` over the cells of
/// the buffer that lie in `rect`, and over no other; how is left to its name. It adds widths of
/// words and lines in a `u16`, so the text must not be too long, and it may paint beyond `rect`
/// where characters are wider than a column or have no width, so the text must be plain.
#[verifier::external_body]
fn draw_wrapped(buffer: &mut Buffer, rect: Rect, text: &str, color: Option<&Color>)
    requires
        is_whole(buffer_cells(*old(buffer)), buffer_area(*old(buffer))),
        text@.len() <= LONGEST_WRAPPED,
        is_plain(text@),
    ensures
        buffer_area(*final(buffer)) == buffer_area(*old(buffer)),
        only_in(
            buffer_cells(*old(buffer)),
            buffer_cells(*final(buffer)),
            buffer_area(*old(buffer)),
            rect,
        ),
        buffer_cells(*final(buffer)) == paragraph_drawn(
            buffer_cells(*old(buffer)),
            buffer_area(*old(buffer)),
            rect,
            text@,
            color_view(color),
            true,
        ),
{
    let Rect { x, y, width, height } = rect;
    let fg = color.map(|color| color.name.parse().unwrap_or_default());
    Paragraph::new(text)
        .style(Style { fg, ..Style::default() })
        .wrap(Wrap { trim: false })
        .render(ratatui::layout::Rect { x, y, width, height }, buffer)
}

/// `Paragraph::line_count` tells how many lines `text` takes when wrapped to `width` columns:
/// none where there is no column. It adds widths of words and lines in a `u16`, so the text must
/// not be too long.
#[verifier::external_body]
pub(crate) fn line_count(text: &str, width: u16) -> (count: usize)
    requires
        text@.len() <= LONGEST_WRAPPED,
    ensures
        count == wrapped_line_count(text@, width),
        width == 0 ==> count == 0,
{
    Paragraph::new(text).wrap(Wrap { trim: false }).line_count(width)
}

/// Where the terminal's cursor is, and how it looks.
#[derive(Clone, Copy, Debug, PartialEq, Eq, Structural)]
pub struct CursorState {
    pub x: u16,
    pub y: u16,
    pub visible: bool,
    pub shape: u8,
}

/// A frame: cells to show, and the cursor.
pub struct FrameData {
    pub buffer: Buffer,
    pub cursor: Option<CursorState>,
}

impl FrameData {
    pub open spec fn cells(&self) -> Seq<CellView> {
        buffer_cells(self.buffer)
    }

    pub open spec fn area(&self) -> Rect {
        buffer_area(self.buffer)
    }

    /// The frame has a cell for each of its positions.
    pub open spec fn well_formed(&self) -> bool {
        is_whole(self.cells(), self.area())
    }

    /// A frame of these cells, unless some of them are missing or too many.
    pub fn new(buffer: Buffer, cursor: Option<CursorState>) -> (frame: Option<FrameData>)
        ensures
            match frame {
                Some(frame) => frame.well_formed() && frame.buffer == buffer && frame.cursor
                    == cursor,
                None => !is_whole(buffer_cells(buffer), buffer_area(buffer)),
            },
    {
        let len: usize = buffer_len(&buffer);
        let area = area_of(&buffer);
        assert(area.width * area.height <= 0xffff * 0xffff) by (nonlinear_arith)
            requires
                area.width <= 0xffff,
                area.height <= 0xffff,
        ;
        if len as u64 == area.width as u64 * area.height as u64 {
            Some(FrameData { buffer, cursor })
        } else {
            None
        }
    }
}

/// The label of the first of `endpoints` that is `id`, or a general one.
pub open spec fn label_of(endpoints: Seq<ClientShellEndpoint>, id: EndpointIdView) -> Seq<char>
    decreases endpoints.len(),
{
    if endpoints.len() == 0 {
        "SSH"@
    } else if endpoints[0].endpoint_id@ == id {
        endpoints[0].label@
    } else {
        label_of(endpoints.drop_first(), id)
    }
}

pub open spec fn phase_text(phase: Phase) -> Seq<char> {
    match phase {
        Phase::Authenticating => "Authentication"@,
        Phase::Verifying => "Verifying"@,
        Phase::Failed => "Failed"@,
    }
}

/// The title of a popup: the machine's label and the phase.
pub open spec fn title_chars(label: Seq<char>, phase: Phase) -> Seq<char> {
    safe_chars(" "@ + label + " — "@ + phase_text(phase) + " "@)
}

/// The rectangle of the hint: from the terminal's end to the cancel button.
pub open spec fn hint_rect(terminal: Rect, cancel: Rect) -> Rect {
    let below = add_capped(terminal.y, terminal.height);
    Rect::cut(terminal.x, below, terminal.width, sub_floored(cancel.y, below))
}

/// All parts of a popup lie within it.
pub open spec fn is_contained(rects: (Rect, Rect, Rect)) -> bool {
    let (outer, terminal, cancel) = rects;
    outer.covers(terminal) && outer.covers(hint_rect(terminal, cancel)) && outer.covers(cancel)
}

/// All parts of a popup lie within it, where what is within its border does.
pub proof fn law_layout_contained(
    cols: u16,
    rows: u16,
    resolved: Option<PopupGeometry>,
    hint_lines: nat,
)
    requires
        resolved matches Some(g) ==> g.inner.fits() && g.outer.covers(g.inner) && g.inner.height
            >= 1,
    ensures
        is_contained(layout(cols, rows, resolved, hint_lines)),
{
}

/// The cells with the popup painted over them: its border and title on a blank ground, the
/// text, the hint as long as authentication goes on, and the cancel button.
pub open spec fn popup_drawn(
    cells: Seq<CellView>,
    area: Rect,
    popup: PopupView,
    title: Seq<char>,
    palette: Palette,
    rects: (Rect, Rect, Rect),
) -> Seq<CellView> {
    let (outer, terminal, cancel) = rects;
    let framed = block_drawn(
        cleared(cells, area, outer),
        area,
        outer,
        title,
        palette.text.name@,
        palette.panel_bg.name@,
        palette.accent.name@,
    );
    let filled = paragraph_drawn(framed, area, terminal, popup.text, None, false);
    let hinted = if popup.phase == Phase::Authenticating {
        paragraph_drawn(
            filled,
            area,
            hint_rect(terminal, cancel),
            HIDDEN_INPUT_HINT@,
            Some(palette.overlay0.name@),
            true,
        )
    } else {
        filled
    };
    paragraph_drawn(
        hinted,
        area,
        cancel,
        "[Cancel/Esc]"@,
        Some(palette.accent.name@),
        false,
    )
}

/// The popup's cursor on the screen: shown where it lies in the terminal, and not elsewhere.
pub open spec fn popup_cursor(cursor: Option<(u16, u16)>, terminal: Rect) -> Option<CursorState> {
    match cursor {
        Some((x, y)) => if x < terminal.width && y < terminal.height {
            Some(
                CursorState {
                    x: (terminal.x + x) as u16,
                    y: (terminal.y + y) as u16,
                    visible: true,
                    shape: 1,
                },
            )
        } else {
            None
        },
        None => None,
    }
}

/// The popup's cursor on the screen.
pub fn place_cursor(cursor: Option<(u16, u16)>, terminal: Rect) -> (placed: Option<CursorState>)
    requires
        terminal.fits(),
    ensures
        placed == popup_cursor(cursor, terminal),
{
    match cursor {
        Some((x, y)) => if x < terminal.width && y < terminal.height {
            Some(CursorState { x: terminal.x + x, y: terminal.y + y, visible: true, shape: 1 })
        } else {
            None
        },
        None => None,
    }
}

/// The title of a popup.
pub fn popup_title(label: &str, phase: Phase) -> (title: String)
    ensures
        title@ == title_chars(label@, phase),
{
    let word = match phase {
        Phase::Authenticating => "Authentication",
        Phase::Verifying => "Verifying",
        Phase::Failed => "Failed",
    };
    let title = " ".to_string().concat(label).concat(" — ").concat(word).concat(" ");
    safe_text(title)
}

/// The columns of a popup's terminal.
pub open spec fn terminal_width(cols: u16, resolved: Option<PopupGeometry>) -> u16 {
    match resolved {
        Some(g) => g.inner.width,
        None => cols,
    }
}

/// Tells whether `line` takes no more columns than may be painted in any rectangle.
fn is_short_line(line: &Vec<char>) -> (short: bool)
    ensures
        short == (columns(line@) <= MOST_COLUMNS),
{
    let mut total: u64 = 0;
    let mut i: usize = 0;
    while i < line.len()
        invariant
            i <= line.len(),
            total == columns(line@.take(i as int)),
            total <= MOST_COLUMNS,
        decreases line.len() - i,
    {
        let c: u32 = line[i] as u32;
        proof {
            assert(line@.take(i + 1).drop_last() =~= line@.take(i as int));
        }
        total = total + if 0x20 <= c && c <= 0x7e {
            1
        } else if c == 0x17d8 {
            3
        } else {
            2
        };
        i += 1;
        if total > MOST_COLUMNS {
            proof {
                lemma_columns_grow(line@, i as int);
            }
            return false;
        }
    }
    assert(line@.take(i as int) =~= line@);
    true
}

/// The beginning of a line takes no more columns than the line.
proof fn lemma_columns_grow(line: Seq<char>, i: int)
    requires
        0 <= i <= line.len(),
    ensures
        columns(line.take(i)) <= columns(line),
    decreases line.len(),
{
    if i < line.len() {
        lemma_columns_grow(line.drop_last(), i);
        assert(line.drop_last().take(i) =~= line.take(i));
    } else {
        assert(line.take(i) =~= line);
    }
}

fn all_lines_short(text: &str) -> (short: bool)
    ensures
        short == has_short_lines(text@),
{
    let split = split_lines(&to_chars(text));
    let mut i: usize = 0;
    while i < split.len()
        invariant
            i <= split.len(),
            split.deep_view() == lines(text@),
            forall|j: int| 0 <= j < i ==> columns(#[trigger] lines(text@)[j]) <= MOST_COLUMNS,
        decreases split.len() - i,
    {
        assert(split.deep_view()[i as int] == split[i as int].deep_view());
        assert(split[i as int].deep_view() =~= split[i as int]@);
        if !is_short_line(&split[i]) {
            assert(columns(lines(text@)[i as int]) > MOST_COLUMNS);
            return false;
        }
        i += 1;
    }
    true
}

/// Paints the popup over the frame's cells.
fn draw_popup(
    frame: &mut FrameData,
    popup: &AuthPopup,
    title: &str,
    palette: &Palette,
    rects: (Rect, Rect, Rect),
)
    requires
        old(frame).well_formed(),
        is_paintable(popup.text@, rects.1.width),
        rects.2.width <= WIDEST,
    ensures
        final(frame).well_formed(),
        final(frame).area() == old(frame).area(),
        final(frame).cursor == old(frame).cursor,
        final(frame).cells() == popup_drawn(
            old(frame).cells(),
            old(frame).area(),
            popup@,
            title@,
            *palette,
            rects,
        ),
        is_contained(rects) ==> only_in(
            old(frame).cells(),
            final(frame).cells(),
            old(frame).area(),
            rects.0,
        ),
{
    proof {
        lemma_hint_is_plain();
    }
    let (outer, terminal, cancel) = rects;
    draw_clear(&mut frame.buffer, outer);
    draw_block(
        &mut frame.buffer,
        outer,
        title,
        &palette.text,
        &palette.panel_bg,
        &palette.accent,
    );
    draw_paragraph(&mut frame.buffer, terminal, popup.text.as_str(), None);
    if popup.phase == Phase::Authenticating {
        let below = terminal.bottom();
        let hint = Rect::new(terminal.x, below, terminal.width, cancel.y.saturating_sub(below));
        draw_wrapped(&mut frame.buffer, hint, HIDDEN_INPUT_HINT, Some(&palette.overlay0));
    }
    draw_paragraph(&mut frame.buffer, cancel, "[Cancel/Esc]", Some(&palette.accent));
}

impl ClientShellState {
    fn endpoint_label(&self, popup: &AuthPopup) -> (label: String)
        ensures
            label@ == label_of(self.endpoints@, popup.endpoint@),
    {
        let mut i: usize = 0;
        assert(self.endpoints@.skip(0) =~= self.endpoints@);
        while i < self.endpoints.len()
            invariant
                i <= self.endpoints.len(),
                label_of(self.endpoints@.skip(i as int), popup.endpoint@) == label_of(
                    self.endpoints@,
                    popup.endpoint@,
                ),
            decreases self.endpoints.len() - i,
        {
            if self.endpoints[i].endpoint_id.same_as(&popup.endpoint) {
                return self.endpoints[i].label.clone();
            }
            assert(self.endpoints@.skip(i as int).drop_first() =~= self.endpoints@.skip(i + 1));
            i += 1;
        }
        "SSH".to_string()
    }

    /// The popup, if it is open, can be painted on a screen of `cols` columns.
    pub open spec fn is_composable(&self, cols: u16, resolved: Option<PopupGeometry>) -> bool {
        self.auth@.popup matches Some(popup) ==> is_paintable(
            popup.text,
            terminal_width(cols, resolved),
        )
    }

    /// Tells whether the popup can be painted: always, but for a popup of extreme width with a
    /// line of extreme length.
    pub fn can_compose_auth(&self, cols: u16, resolved: Option<PopupGeometry>) -> (can: bool)
        ensures
            can == self.is_composable(cols, resolved),
    {
        let width: u16 = match resolved {
            Some(g) => g.inner.width,
            None => cols,
        };
        match &self.auth.popup {
            None => true,
            Some(popup) => width <= WIDEST || all_lines_short(popup.text.as_str()),
        }
    }

    /// Lays the popup out on a screen of `cols` columns and `rows` rows and paints it over the
    /// frame. `resolved` is what the popup's request resolves to on that screen.
    pub fn compose_auth(
        &mut self,
        frame: &mut FrameData,
        cols: u16,
        rows: u16,
        resolved: Option<PopupGeometry>,
    )
        requires
            old(self).auth.well_formed(),
            old(frame).well_formed(),
            resolved matches Some(g) ==> g.inner.fits(),
            old(self).is_composable(cols, resolved),
        ensures
            final(self).auth.well_formed(),
            final(frame).well_formed(),
            match old(self).auth@.popup {
                None => *final(self) == *old(self) && *final(frame) == *old(frame),
                Some(popup) => {
                    let rects = auth_layout(cols, rows, resolved);
                    let (_, terminal, cancel) = rects;
                    let title = title_chars(
                        label_of(old(self).endpoints@, popup.endpoint),
                        popup.phase,
                    );
                    &&& final(self).same_but_auth(*old(self))
                    &&& final(self).auth@ == old(self).auth@.with_popup(
                        Some(popup.resized(terminal, cancel)),
                    )
                    &&& final(frame).area() == old(frame).area()
                    &&& final(frame).cells() == popup_drawn(
                        old(frame).cells(),
                        old(frame).area(),
                        popup,
                        title,
                        old(self).config.palette,
                        rects,
                    )
                    &&& final(frame).cursor == popup_cursor(popup.cursor, terminal)
                    &&& is_contained(rects) ==> only_in(
                        old(frame).cells(),
                        final(frame).cells(),
                        old(frame).area(),
                        rects.0,
                    )
                },
            },
    {
        if self.auth.popup.is_none() {
            return;
        }
        let rects = geometry(cols, rows, resolved);
        let (_, terminal, cancel) = rects;
        if let Some(popup) = &mut self.auth.popup {
            popup.size = (max_one(terminal.width), max_one(terminal.height));
            popup.cancel = cancel;
        }
        if let Some(popup) = &self.auth.popup {
            let label = self.endpoint_label(popup);
            let title = popup_title(label.as_str(), popup.phase);
            draw_popup(frame, popup, title.as_str(), &self.config.palette, rects);
            frame.cursor = place_cursor(popup.cursor, terminal);
        }
    }
}

/// The popup's cursor is shown within the popup's terminal, or not at all.
pub proof fn law_cursor_inside_terminal(cursor: Option<(u16, u16)>, terminal: Rect)
    requires
        terminal.fits(),
    ensures
        popup_cursor(cursor, terminal) matches Some(placed) ==> terminal.holds(
            (placed.x, placed.y),
        ),
{
}

} // verus!
