//! What holds of dialogs, of the layout of the screen, and of the text that goes to it.
use vstd::prelude::*;
use vstd::utf8::*;

use crate::display::{Color, SpanModel};
use crate::laws;
use crate::screen;
use crate::screen::{Cells, InkModel, Rect};
use crate::seqs;
use crate::terminal;
use crate::terminal::{AppModel, DialogModel};
use crate::text;
use crate::text_laws;

verus! {

// ---------------------------------------------------------------------------
// The lines of a dialog
// ---------------------------------------------------------------------------

/// The text is what a dialog shows of a detail: all of it, or, where it takes more than fifty
/// bytes, the characters that make up the first fifty, and three dots.
pub open spec fn is_shortened(t: Seq<char>, detail: Seq<char>) -> bool {
    if text::byte_len(detail) <= 50 {
        t == detail
    } else {
        let head = t.take(t.len() - 3);
        &&& t.len() >= 3
        &&& t.skip(t.len() - 3) == seq!['.', '.', '.']
        &&& head.len() <= detail.len()
        &&& head == detail.take(head.len() as int)
        &&& text::byte_len(head) == 50
    }
}

/// Details that can be cut are shortened where they are too long.
pub proof fn long_details_are_shortened(detail: Seq<char>)
    requires
        terminal::can_be_cut(detail),
    ensures
        is_shortened(terminal::shown_detail(detail), detail),
{
    if text::byte_len(detail) > 50 {
        let bytes = encode_utf8(detail);
        let head = terminal::detail_head(detail);
        let t = terminal::shown_detail(detail);
        encode_utf8_valid_utf8(detail);
        encode_utf8_decode_utf8(detail);
        valid_utf8_split(bytes, 50);
        decode_utf8_split(bytes, 50);
        assert(bytes.take(50) =~= bytes.subrange(0, 50));
        decode_utf8_encode_utf8(bytes.subrange(0, 50));
        reveal_strlit("...");
        assert(t.skip(t.len() - 3) =~= seq!['.', '.', '.']);
        assert(t.take(t.len() - 3) =~= head);
        assert(head =~= detail.take(head.len() as int));
    }
}

/// Plain text: one piece without colour or emphasis.
pub open spec fn is_plain(s: SpanModel, content: Seq<char>) -> bool {
    s.content == content && text_laws::has_style(s.style, None, false, false)
}

/// A dialog shows its first nine entries, each under its number, in bold, with its label and what
/// is shown of its detail; then an empty line, and the help text.
pub proof fn the_lines_of_a_dialog(d: DialogModel)
    ensures
        ({
            let lines = terminal::dialog_lines_model(d);
            let n = if d.entries.len() < 9 {
                d.entries.len() as int
            } else {
                9
            };
            &&& lines.len() == n + 2
            &&& forall|i: int|
                0 <= i < n ==> {
                    let line = #[trigger] lines[i];
                    &&& line.len() == 3
                    &&& is_plain(line[0], seq![' ', ' '])
                    &&& line[1].content == text::decimal(i + 1).push(')')
                    &&& text_laws::has_style(line[1].style, None, true, false)
                    &&& is_plain(
                        line[2],
                        seq![' '] + d.entries[i].0 + seq![' ', ' ', ' ', ' ']
                            + terminal::shown_detail(d.entries[i].1),
                    )
                }
            &&& lines[n].len() == 0
            &&& lines[n + 1].len() == 1
            &&& is_plain(lines[n + 1][0], seq![' ', ' '] + d.help_text)
        }),
{
    let lines = terminal::dialog_lines_model(d);
    let n = seqs::least(d.entries.len() as int, 9);
    reveal_strlit(" ");
    reveal_strlit("  ");
    reveal_strlit("    ");
    reveal_strlit(")");
    assert(" "@ =~= seq![' ']);
    assert("  "@ =~= seq![' ', ' ']);
    assert("    "@ =~= seq![' ', ' ', ' ', ' ']);
    assert forall|i: int| 0 <= i < n implies {
        let line = #[trigger] lines[i];
        &&& line.len() == 3
        &&& is_plain(line[0], seq![' ', ' '])
        &&& line[1].content == text::decimal(i + 1).push(')')
        &&& text_laws::has_style(line[1].style, None, true, false)
        &&& is_plain(
            line[2],
            seq![' '] + d.entries[i].0 + seq![' ', ' ', ' ', ' '] + terminal::shown_detail(
                d.entries[i].1,
            ),
        )
    } by {
        assert(lines[i] == terminal::entry_line(i, d.entries[i]));
        assert(text::decimal(i + 1) + ")"@ =~= text::decimal(i + 1).push(')'));
    }
    assert(lines[n] == Seq::<SpanModel>::empty());
    assert(lines[n + 1] == seq![terminal::raw("  "@ + d.help_text)]);
}

/// The title stands between spaces.
pub proof fn the_title_stands_between_spaces(d: DialogModel)
    ensures
        ({
            let t = terminal::dialog_title(d);
            &&& t.len() == d.title.len() + 2
            &&& t[0] == ' '
            &&& t.last() == ' '
            &&& t.subrange(1, t.len() - 1) == d.title
        }),
{
    reveal_strlit(" ");
    let t = terminal::dialog_title(d);
    assert(t.subrange(1, t.len() - 1) =~= d.title);
}

// ---------------------------------------------------------------------------
// The size and place of a dialog
// ---------------------------------------------------------------------------

/// Something in the dialog takes `n` columns, with the borders: an entry with its number and the
/// spaces around it, the help text, or the title. Twenty columns inside are taken in any case.
pub open spec fn takes(d: DialogModel, n: int) -> bool {
    ||| n == 22
    ||| n == text::byte_len(d.help_text) + 4
    ||| n == text::byte_len(d.title) + 6
    ||| exists|i: int|
        0 <= i < d.entries.len() && n == 11 + text::byte_len((#[trigger] d.entries[i]).0)
            + seqs::least(text::byte_len(d.entries[i].1) as int, 53)
}

proof fn lemma_widest_entry(entries: Seq<(Seq<char>, Seq<char>)>)
    ensures
        terminal::widest_entry(entries) >= 0,
        forall|i: int|
            0 <= i < entries.len() ==> terminal::entry_width(#[trigger] entries[i])
                <= terminal::widest_entry(entries),
        terminal::widest_entry(entries) == 0 || exists|i: int|
            0 <= i < entries.len() && terminal::entry_width(#[trigger] entries[i])
                == terminal::widest_entry(entries),
    decreases entries.len(),
{
    if entries.len() > 0 {
        let rest = entries.drop_last();
        let last = entries.len() - 1;
        lemma_widest_entry(rest);
        assert forall|i: int| 0 <= i < entries.len() implies terminal::entry_width(
            #[trigger] entries[i],
        ) <= terminal::widest_entry(entries) by {
            if i < rest.len() {
                assert(rest[i] == entries[i]);
            }
        }
        if terminal::widest_entry(entries) == terminal::entry_width(entries[last]) {
            assert(terminal::entry_width(entries[last]) == terminal::widest_entry(entries));
        } else if terminal::widest_entry(entries) != 0 {
            let i = choose|i: int|
                0 <= i < rest.len() && terminal::entry_width(#[trigger] rest[i])
                    == terminal::widest_entry(rest);
            assert(terminal::entry_width(entries[i]) == terminal::widest_entry(entries));
        }
    }
}

/// A dialog is as wide as the widest thing in it, and no wider than the screen. It has a row for
/// every entry and four more, and no more than the screen.
pub proof fn a_dialog_is_as_large_as_it_needs(d: DialogModel, width: u16, height: u16)
    ensures
        forall|n: int| #[trigger]
            takes(d, n) ==> seqs::least(n, width as int) <= terminal::dialog_width(d, width),
        exists|n: int| #[trigger]
            takes(d, n) && terminal::dialog_width(d, width) == seqs::least(n, width as int),
        terminal::dialog_width(d, width) <= width,
        terminal::dialog_height(d, height) == seqs::least(
            d.entries.len() as int + 4,
            height as int,
        ),
{
    lemma_widest_entry(d.entries);
    let widest = terminal::widest_entry(d.entries);
    let inner = terminal::inner_width(d);
    assert forall|n: int| #[trigger] takes(d, n) implies n <= inner + 2 by {
        if n != 22 && n != text::byte_len(d.help_text) + 4 && n != text::byte_len(d.title) + 6 {
            let i = choose|i: int|
                0 <= i < d.entries.len() && n == 11 + text::byte_len((#[trigger] d.entries[i]).0)
                    + seqs::least(text::byte_len(d.entries[i].1) as int, 53);
            assert(terminal::entry_width(d.entries[i]) <= widest);
        }
    }
    if inner == widest && widest != 0 {
        let i = choose|i: int|
            0 <= i < d.entries.len() && terminal::entry_width(#[trigger] d.entries[i]) == widest;
        assert(inner + 2 == 11 + text::byte_len(d.entries[i].0) + seqs::least(
            text::byte_len(d.entries[i].1) as int,
            53,
        ));
    }
    assert(takes(d, inner + 2));
}

/// A rectangle that is centred has the size that is asked for, or that of the area where that is
/// less.
pub proof fn a_centred_rectangle_has_its_size(width: u16, height: u16, area: Rect)
    requires
        area.in_range(),
    ensures
        terminal::centered(width, height, area).width == (if width < area.width {
            width
        } else {
            area.width
        }),
        terminal::centered(width, height, area).height == (if height < area.height {
            height
        } else {
            area.height
        }),
{
}

/// A dialog lies in the middle of the screen.
pub proof fn a_dialog_lies_in_the_middle(d: DialogModel, area: Rect)
    requires
        area.in_range(),
    ensures
        ({
            let r = terminal::dialog_rect(d, area);
            let left = r.x - area.x;
            let right = area.x + area.width - (r.x + r.width);
            let above = r.y - area.y;
            let below = area.y + area.height - (r.y + r.height);
            &&& r.width == terminal::dialog_width(d, area.width)
            &&& r.height == terminal::dialog_height(d, area.height)
            &&& r.inside(area)
            &&& 0 <= left <= right <= left + 1
            &&& 0 <= above <= below <= above + 1
        }),
{
    let width = terminal::dialog_width(d, area.width);
    let height = terminal::dialog_height(d, area.height);
    a_dialog_is_as_large_as_it_needs(d, area.width, area.height);
    laws::the_middle_is_the_middle(width, height, area);
}

// ---------------------------------------------------------------------------
// The layout of the screen
// ---------------------------------------------------------------------------

/// The log and the status bar share the screen: each cell belongs to one of them. The status bar
/// is the last row, where there is more than one; a single row is the log's.
pub proof fn log_and_status_bar_share_the_screen(area: Rect, x: int, y: int)
    requires
        area.in_range(),
    ensures
        ({
            let (upper, lower) = screen::split_model(area);
            &&& area.has(x, y) <==> upper.has(x, y) || lower.has(x, y)
            &&& !(upper.has(x, y) && lower.has(x, y))
            &&& area.height >= 2 && area.has(x, y) ==> (lower.has(x, y) <==> y == area.y
                + area.height - 1)
            &&& area.height < 2 ==> !lower.has(x, y)
        }),
{
}

/// The inside of a box is what is not on its edge.
pub proof fn the_inside_is_off_the_edge(area: Rect, x: int, y: int)
    requires
        area.in_range(),
    ensures
        screen::inner_model(area).has(x, y) <==> area.x < x < area.x + area.width - 1 && area.y < y
            < area.y + area.height - 1,
{
}

/// The log shows from the line on that is asked for, or from further up where that brings its
/// last line to the last row, as far as the terminal library can scroll.
pub proof fn the_log_is_scrolled_no_further_than_its_end(state: AppModel, height: u16)
    ensures
        ({
            let scroll = terminal::log_scroll(state, height);
            let spare = state.log_lines.len() - height;
            &&& 0 <= scroll <= u16::MAX
            &&& spare <= 0 ==> scroll == 0
            &&& spare > 0 && state.scroll_offset >= spare && spare <= u16::MAX ==> scroll == spare
            &&& spare > 0 && state.scroll_offset < spare && state.scroll_offset <= u16::MAX
                ==> scroll == state.scroll_offset
            &&& spare > u16::MAX && state.scroll_offset > u16::MAX ==> scroll == u16::MAX
        }),
{
}

/// The picture is made up of the log above, the status bar below, and the dialog, where one is
/// open, on blank ground over both.
pub proof fn the_picture_is_made_of_three_parts(cells: Cells, area: Rect, state: AppModel)
    ensures
        ({
            let (upper, lower) = screen::split_model(area);
            let log = screen::wrapped_cells(
                cells,
                terminal::ink_lines(state.log_lines),
                terminal::log_scroll(state, upper.height) as u16,
                upper,
            );
            let below = screen::line_cells(
                log,
                terminal::ink_line(terminal::status_spans(state.scripts)),
                lower,
            );
            &&& terminal::ui_cells(cells, area, AppModel { dialog: None, ..state }) == below
            &&& state.dialog is None ==> terminal::ui_cells(cells, area, state) == below
            &&& state.dialog matches Some(d) ==> {
                let place = terminal::dialog_rect(d, area);
                terminal::ui_cells(cells, area, state) == screen::boxed_cells(
                    screen::cleared(below, place),
                    terminal::dialog_title(d),
                    terminal::ink_lines(terminal::dialog_lines_model(d)),
                    place,
                )
            }
        }),
{
}

/// Clearing blanks the cells of the rectangle and no others.
pub proof fn clearing_blanks_the_rectangle(cells: Cells, area: Rect, x: int, y: int)
    requires
        cells.dom().contains((x, y)),
    ensures
        screen::cleared(cells, area).dom() == cells.dom(),
        area.has(x, y) ==> screen::cleared(cells, area)[(x, y)].symbol == seq![' '],
        !area.has(x, y) ==> screen::cleared(cells, area)[(x, y)] == cells[(x, y)],
{
    reveal_strlit(" ");
    assert(screen::cleared(cells, area).dom() =~= cells.dom());
    assert(" "@ =~= seq![' ']);
}

// ---------------------------------------------------------------------------
// Text for the screen
// ---------------------------------------------------------------------------

/// The name under which the terminal library knows a colour.
pub open spec fn is_name_of(name: Seq<char>, c: Color) -> bool {
    &&& c is Cyan ==> name == "cyan"@
    &&& c is Yellow ==> name == "yellow"@
    &&& c is Green ==> name == "green"@
    &&& c is Magenta ==> name == "magenta"@
    &&& c is Blue ==> name == "blue"@
    &&& c is White ==> name == "white"@
    &&& c is LightCyan ==> name == "lightcyan"@
    &&& c is LightYellow ==> name == "lightyellow"@
    &&& c is LightGreen ==> name == "lightgreen"@
    &&& c is Red ==> name == "red"@
}

/// The piece of text is the same for the terminal library: its text, its colour if it has one,
/// the first bit for bold and the second for dim.
pub open spec fn is_inked(ink: InkModel, s: SpanModel) -> bool {
    &&& ink.text == s.content
    &&& s.style.fg is None ==> ink.color.len() == 0
    &&& s.style.fg matches Some(c) ==> is_name_of(ink.color, c)
    &&& ink.modifiers < 4
    &&& ink.modifiers % 2 == 1 <==> s.style.modifier.bold
    &&& ink.modifiers >= 2 <==> s.style.modifier.dim
}

/// The terminal library is given every piece of every line, in order, as it is.
pub proof fn text_goes_to_the_screen_as_it_is(lines: Seq<Seq<SpanModel>>, i: int, j: int)
    requires
        0 <= i < lines.len(),
        0 <= j < lines[i].len(),
    ensures
        terminal::ink_lines(lines).len() == lines.len(),
        terminal::ink_lines(lines)[i].len() == lines[i].len(),
        is_inked(terminal::ink_lines(lines)[i][j], lines[i][j]),
        terminal::ink_lines(lines)[i] == terminal::ink_line(lines[i]),
{
}

/// A line without pieces is one without pieces for the terminal library too.
pub proof fn empty_lines_stay_empty(lines: Seq<Seq<SpanModel>>, i: int)
    requires
        0 <= i < lines.len(),
        lines[i].len() == 0,
    ensures
        terminal::ink_lines(lines).len() == lines.len(),
        terminal::ink_lines(lines)[i].len() == 0,
{
}

/// No symbol is wider than two columns.
pub open spec fn all_narrow(widths: Seq<usize>) -> bool {
    forall|i: int| 0 <= i < widths.len() ==> #[trigger] widths[i] <= 2
}

proof fn lemma_narrow_widest(widths: Seq<usize>, limit: int)
    requires
        all_narrow(widths),
    ensures
        0 <= screen::widest_symbol(widths, limit) <= 2,
    decreases widths.len(),
{
    if widths.len() > 0 {
        let rest = widths.drop_last();
        assert forall|i: int| 0 <= i < rest.len() implies #[trigger] rest[i] <= 2 by {
            assert(rest[i] == widths[i]);
        }
        lemma_narrow_widest(rest, limit);
        assert(widths[widths.len() - 1] <= 2);
    }
}

/// Text of symbols that take no more than two columns can be laid out on any screen but the
/// widest: wrapped on up to 65,530 columns, cut off on up to 65,533, and it ends where it should.
pub proof fn ordinary_text_can_be_laid_out(widths: Seq<usize>, width: u16)
    requires
        all_narrow(widths),
    ensures
        width <= 65_530 ==> screen::row_fits(widths, width),
        width <= 65_533 ==> screen::can_cut(widths, width),
        !screen::overhangs(widths, width),
{
    lemma_narrow_widest(widths, width as int);
    assert forall|k: int| 0 <= k < widths.len() implies !screen::hides(#[trigger] widths[k]) by {
        assert(widths[k] <= 2);
    }
    if width <= 65_533 {
        assert forall|k: int|
            0 <= k < widths.len() && #[trigger] screen::columns(widths, k, width as int)
                <= width implies screen::columns(widths, k, width as int) + screen::counted(
            widths[k],
            width as int,
        ) < screen::COLUMN_RANGE by {
            assert(widths[k] <= 2);
        }
    }
}

proof fn lemma_widest_bounds(widths: Seq<usize>, limit: int)
    ensures
        forall|i: int|
            0 <= i < widths.len() ==> screen::counted(#[trigger] widths[i], limit)
                <= screen::widest_symbol(widths, limit),
    decreases widths.len(),
{
    if widths.len() > 0 {
        let rest = widths.drop_last();
        lemma_widest_bounds(rest, limit);
        assert forall|i: int| 0 <= i < widths.len() implies screen::counted(
            #[trigger] widths[i],
            limit,
        ) <= screen::widest_symbol(widths, limit) by {
            if i < rest.len() {
                assert(rest[i] == widths[i]);
            }
        }
    }
}

/// A row that can be wrapped leaves room for what is added up: all of it fits in sixteen bits, or
/// three of any of its symbols that the width has room for, on top of a line with a column left.
pub proof fn what_is_wrapped_fits_in_sixteen_bits(widths: Seq<usize>, width: u16, i: int)
    requires
        screen::row_fits(widths, width),
        0 <= i < widths.len(),
        widths[i] <= width,
    ensures
        screen::columns(widths, widths.len() as int, width as int) <= 65_535 || width + 3
            * widths[i] <= 65_537,
{
    lemma_widest_bounds(widths, width as int);
    assert(screen::counted(widths[i], width as int) == widths[i]);
}

/// A title can be laid out unless one column more does not fit in sixteen bits.
pub proof fn titles_leave_a_column(width: usize)
    ensures
        width < 65_535 ==> screen::has_a_column_left(width),
        !screen::has_a_column_left(width) <==> (width + 1) % 65_536 == 0,
{
}

/// A surface that holds all cells of its rectangle has just those, as far as they can be counted.
pub proof fn a_whole_canvas_has_its_cells(canvas: Rect, count: int, x: int, y: int)
    requires
        canvas.in_range(),
        count == canvas.width * canvas.height,
    ensures
        screen::on_canvas(canvas, count, x, y) <==> canvas.has(x, y),
{
    if canvas.has(x, y) {
        let width = canvas.width as int;
        let height = canvas.height as int;
        let row = y - canvas.y;
        let column = x - canvas.x;
        assert(row * width + column < width * height) by (nonlinear_arith)
            requires
                0 <= row < height,
                0 <= column < width,
        ;
    }
}

/// Rows of such symbols can be wrapped as long as the lines can be counted.
pub proof fn ordinary_rows_can_be_wrapped(
    rows: Seq<Seq<InkModel>>,
    scroll: u16,
    width: u16,
    height: u16,
)
    requires
        width <= 65_530,
        height + scroll <= u16::MAX,
        forall|i: int|
            0 <= i < rows.len() ==> all_narrow(screen::line_widths(#[trigger] rows[i])),
    ensures
        screen::can_wrap(rows, scroll, width, height),
{
    assert forall|i: int| 0 <= i < rows.len() && i < height + scroll implies screen::row_fits(
        screen::line_widths(#[trigger] rows[i]),
        width,
    ) by {
        ordinary_text_can_be_laid_out(screen::line_widths(rows[i]), width);
    }
}

// ---------------------------------------------------------------------------
// Pictures that can be drawn
// ---------------------------------------------------------------------------

proof fn lemma_boundary(s: Seq<char>, n: int)
    requires
        0 <= n <= s.len(),
    ensures
        is_char_boundary(encode_utf8(s), text::byte_len(s.take(n)) as int),
    decreases n,
{
    encode_utf8_valid_utf8(s);
    if n == 0 {
        assert(s.take(0) =~= Seq::empty());
    } else {
        let bytes = encode_utf8(s);
        let rest = s.drop_first();
        encode_utf8_first_scalar(s);
        lemma_boundary(rest, n - 1);
        assert(s.take(n).drop_first() =~= rest.take(n - 1));
        assert(pop_first_scalar(bytes) =~= encode_utf8(rest));
        text_laws::bytes_add_up(s);
        text_laws::bytes_add_up(s.take(n));
        lemma_shorter_in_bytes(s, n);
    }
}

proof fn lemma_shorter_in_bytes(s: Seq<char>, n: int)
    requires
        0 <= n <= s.len(),
    ensures
        text::byte_len(s.take(n)) <= text::byte_len(s),
    decreases n,
{
    if n > 0 {
        lemma_shorter_in_bytes(s.drop_first(), n - 1);
        assert(s.take(n).drop_first() =~= s.drop_first().take(n - 1));
        text_laws::bytes_add_up(s);
        text_laws::bytes_add_up(s.take(n));
    } else {
        assert(s.take(0) =~= Seq::empty());
    }
}

/// A detail can be shown if it is short enough, or if some of its characters make up its first
/// fifty bytes, as plain text of one byte a character always does.
pub proof fn most_details_can_be_shown(detail: Seq<char>, n: int)
    requires
        0 <= n <= detail.len(),
    ensures
        text::byte_len(detail) <= 50 ==> terminal::can_be_cut(detail),
        text::byte_len(detail.take(n)) == 50 ==> terminal::can_be_cut(detail),
{
    lemma_boundary(detail, n);
}

/// A picture can be drawn if the surface has every cell of it, its text can be laid out and lands
/// on the surface, and the details of its dialog can be shown. Nothing else is asked.
pub proof fn what_a_picture_needs(cells: Cells, area: Rect, state: AppModel)
    requires
        screen::covers(cells, area),
        area.in_range(),
    ensures
        ({
            let (upper, lower) = screen::split_model(area);
            let rows = terminal::ink_lines(state.log_lines);
            let scroll = terminal::log_scroll(state, upper.height) as u16;
            let bar = terminal::ink_line(terminal::status_spans(state.scripts));
            let log_is_fine = {
                &&& screen::can_wrap(rows, scroll, upper.width, upper.height)
                &&& screen::in_rows(rows, scroll, upper)
                &&& screen::lands(cells, rows, scroll, upper)
            };
            let bar_is_fine = {
                &&& screen::line_fits(bar, lower)
                &&& screen::line_lands(cells, bar, lower)
            };
            let dialog_is_fine = match state.dialog {
                None => true,
                Some(d) => {
                    let place = terminal::dialog_rect(d, area);
                    let inner = screen::inner_model(place);
                    let lines = terminal::ink_lines(terminal::dialog_lines_model(d));
                    &&& forall|i: int|
                        0 <= i < d.entries.len() && i < 9 ==> terminal::can_be_cut(
                            #[trigger] d.entries[i].1,
                        )
                    &&& screen::title_fits(terminal::dialog_title(d), place)
                    &&& screen::can_wrap(lines, 0, inner.width, inner.height)
                    &&& screen::in_rows(lines, 0, inner)
                    &&& screen::lands(cells, lines, 0, inner)
                },
            };
            terminal::picture_fits(cells, area, state) <==> log_is_fine && bar_is_fine
                && dialog_is_fine
        }),
{
}

} // verus!
