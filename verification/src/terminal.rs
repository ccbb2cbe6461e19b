//! What the screen shows: the log, the status bar and a dialog.
use ratatui::Frame;
use vstd::prelude::*;
use vstd::utf8::*;

use crate::display;
use crate::display::{ratatui_color, Color, Line, Span, SpanModel, Style};
use crate::screen;
use crate::screen::{
    area_of, canvas_covers, canvas_of, check_cut, check_title, check_wrap, overhang_lands,
    paint_blank, paint_boxed, paint_line, paint_wrapped, split_rows, strays_land, widths_in, Cells,
    Ink, InkLine, InkModel, Rect,
};
use crate::seqs;
use crate::text;
use crate::text::{byte_count, code_text, count_text, joined};

verus! {

/// How a script is doing.
#[derive(Clone, Copy, Debug, PartialEq, Eq)]
pub enum RunState {
    Running,
    /// It ended, with this code, or by a signal.
    Exited(Option<i32>),
    Restarting,
}

/// A script as the status bar shows it.
pub struct ScriptView<'a> {
    pub name: &'a str,
    pub visible: bool,
    pub run_state: &'a RunState,
}

/// The model of a [`ScriptView`].
pub struct ScriptViewModel {
    pub name: Seq<char>,
    pub visible: bool,
    pub run_state: RunState,
}

impl<'a> View for ScriptView<'a> {
    type V = ScriptViewModel;

    open spec fn view(&self) -> ScriptViewModel {
        ScriptViewModel { name: self.name@, visible: self.visible, run_state: *self.run_state }
    }
}

/// What a dialog shows: entries of a label and a detail each, under a title and over a help
/// text.
pub struct DialogState<'a> {
    pub title: &'a str,
    pub entries: &'a [(String, String)],
    pub help_text: &'a str,
}

/// The model of a [`DialogState`].
pub struct DialogModel {
    pub title: Seq<char>,
    pub entries: Seq<(Seq<char>, Seq<char>)>,
    pub help_text: Seq<char>,
}

/// The model of the entries of a dialog.
pub open spec fn entry_models(entries: Seq<(String, String)>) -> Seq<(Seq<char>, Seq<char>)> {
    entries.map_values(|e: (String, String)| (e.0@, e.1@))
}

impl<'a> View for DialogState<'a> {
    type V = DialogModel;

    open spec fn view(&self) -> DialogModel {
        DialogModel {
            title: self.title@,
            entries: entry_models(self.entries@),
            help_text: self.help_text@,
        }
    }
}

/// What the screen shows.
pub struct AppState<'a> {
    pub log_lines: &'a [Line],
    pub scripts: &'a [ScriptView<'a>],
    pub dialog: Option<DialogState<'a>>,
    pub scroll_offset: usize,
}

/// The model of an [`AppState`].
pub struct AppModel {
    pub log_lines: Seq<Seq<SpanModel>>,
    pub scripts: Seq<ScriptViewModel>,
    pub dialog: Option<DialogModel>,
    pub scroll_offset: usize,
}

impl<'a> View for AppState<'a> {
    type V = AppModel;

    open spec fn view(&self) -> AppModel {
        AppModel {
            log_lines: seqs::views(self.log_lines@),
            scripts: seqs::views(self.scripts@),
            dialog: match self.dialog {
                Some(d) => Some(d@),
                None => None,
            },
            scroll_offset: self.scroll_offset,
        }
    }
}

// ---------------------------------------------------------------------------
// Status bar
// ---------------------------------------------------------------------------

/// What the status bar says of how a script is doing; nothing of one that runs.
pub open spec fn state_suffix(state: RunState) -> Seq<char> {
    match state {
        RunState::Running => Seq::empty(),
        RunState::Exited(Some(code)) => " exit:"@ + text::decimal(code as int),
        RunState::Exited(None) => " exit:"@ + "sig"@,
        RunState::Restarting => " restarting"@,
    }
}

/// The three pieces of the status bar for the script at position `i`.
pub open spec fn status_of(i: int, s: ScriptViewModel) -> Seq<SpanModel> {
    let style = Style::colored_model(display::palette(i));
    seq![
        SpanModel {
            content: " ["@ + text::decimal(i + 1) + ":"@ + s.name + state_suffix(s.run_state) + " "@,
            style,
        },
        if s.visible {
            SpanModel { content: "ON"@, style: style.bold_model() }
        } else {
            SpanModel { content: "off"@, style: style.dim_model() }
        },
        SpanModel { content: "] "@, style },
    ]
}

/// The pieces of the status bar.
pub open spec fn status_spans(scripts: Seq<ScriptViewModel>) -> Seq<SpanModel>
    decreases scripts.len(),
{
    if scripts.len() == 0 {
        Seq::empty()
    } else {
        status_spans(scripts.drop_last()) + status_of(scripts.len() - 1, scripts.last())
    }
}

fn suffix_text(state: &RunState) -> (r: String)
    ensures
        r@ == state_suffix(*state),
{
    match state {
        RunState::Running => String::new(),
        RunState::Exited(code) => match code {
            Some(c) => joined(" exit:", code_text(*c).as_str()),
            None => joined(" exit:", "sig"),
        },
        RunState::Restarting => " restarting".to_string(),
    }
}

/// The pieces of the status bar: for every script its number, name and state, and whether its
/// output is shown, in the colour of its position.
pub fn build_status_spans(scripts: &[ScriptView]) -> (r: Vec<Span>)
    ensures
        seqs::views(r@) == status_spans(seqs::views(scripts@)),
{
    let ghost all = seqs::views(scripts@);
    let mut spans: Vec<Span> = Vec::new();
    assert(seqs::views(spans@) =~= status_spans(all.take(0)));
    for i in 0..scripts.len()
        invariant
            all == seqs::views(scripts@),
            seqs::views(spans@) == status_spans(all.take(i as int)),
    {
        let s = &scripts[i];
        let style = Style::new().fg(ratatui_color(i));
        let mut prefix = " [".to_string();
        prefix.append(count_text(i + 1).as_str());
        prefix.append(":");
        prefix.append(s.name);
        prefix.append(suffix_text(s.run_state).as_str());
        prefix.append(" ");
        let label = if s.visible {
            Span { content: "ON".to_string(), style: style.bold() }
        } else {
            Span { content: "off".to_string(), style: style.dim() }
        };
        let ghost before = spans@;
        spans.push(Span { content: prefix, style });
        spans.push(label);
        spans.push(Span { content: "] ".to_string(), style });
        assert(all.take(i + 1).drop_last() =~= all.take(i as int));
        assert(seqs::views(spans@) =~= seqs::views(before) + status_of(i as int, all[i as int]));
    }
    assert(all.take(scripts.len() as int) =~= all);
    spans
}

// ---------------------------------------------------------------------------
// Log area
// ---------------------------------------------------------------------------

/// The first line that is shown of `total`, where `height` fit and `scroll_offset` is asked
/// for: no further down than where the last line is the last that fits.
pub open spec fn first_shown(total: int, height: int, scroll_offset: int) -> int {
    seqs::least(scroll_offset, seqs::monus(total, height))
}

/// The first line that is shown of `total`, where `height` fit and `scroll_offset` is asked for.
pub fn first_line(total: usize, height: usize, scroll_offset: usize) -> (r: usize)
    ensures
        r == first_shown(total as int, height as int, scroll_offset as int),
{
    let bottom: usize = if total > height {
        total - height
    } else {
        0
    };
    if scroll_offset >= bottom {
        bottom
    } else {
        scroll_offset
    }
}

/// How far the text of the log is scrolled, in the range that the terminal library has for it.
pub open spec fn log_scroll(state: AppModel, height: u16) -> int {
    seqs::least(
        first_shown(state.log_lines.len() as int, height as int, state.scroll_offset as int),
        u16::MAX as int,
    )
}

// ---------------------------------------------------------------------------
// Text for the terminal library
// ---------------------------------------------------------------------------

/// The name of a colour in the terminal library.
pub open spec fn color_name_model(c: Color) -> Seq<char> {
    match c {
        Color::Cyan => "cyan"@,
        Color::Yellow => "yellow"@,
        Color::Green => "green"@,
        Color::Magenta => "magenta"@,
        Color::Blue => "blue"@,
        Color::White => "white"@,
        Color::LightCyan => "lightcyan"@,
        Color::LightYellow => "lightyellow"@,
        Color::LightGreen => "lightgreen"@,
        Color::Red => "red"@,
    }
}

/// The bit of the terminal library for bold text.
pub const BOLD_BIT: u16 = 1;

/// The bit of the terminal library for dim text.
pub const DIM_BIT: u16 = 2;

/// A piece of text as the terminal library takes it.
pub open spec fn ink_of(s: SpanModel) -> InkModel {
    InkModel {
        text: s.content,
        color: match s.style.fg {
            Some(c) => color_name_model(c),
            None => Seq::empty(),
        },
        modifiers: ((if s.style.modifier.bold {
            BOLD_BIT as int
        } else {
            0
        }) + (if s.style.modifier.dim {
            DIM_BIT as int
        } else {
            0
        })) as u16,
    }
}

/// A line as the terminal library takes it.
pub open spec fn ink_line(line: Seq<SpanModel>) -> Seq<InkModel> {
    line.map_values(|s: SpanModel| ink_of(s))
}

/// Lines as the terminal library takes them.
pub open spec fn ink_lines(lines: Seq<Seq<SpanModel>>) -> Seq<Seq<InkModel>> {
    lines.map_values(|line: Seq<SpanModel>| ink_line(line))
}

fn color_name(c: Color) -> (r: &'static str)
    ensures
        r@ == color_name_model(c),
{
    match c {
        Color::Cyan => "cyan",
        Color::Yellow => "yellow",
        Color::Green => "green",
        Color::Magenta => "magenta",
        Color::Blue => "blue",
        Color::White => "white",
        Color::LightCyan => "lightcyan",
        Color::LightYellow => "lightyellow",
        Color::LightGreen => "lightgreen",
        Color::Red => "red",
    }
}

fn inked(span: &Span) -> (r: Ink)
    ensures
        r@ == ink_of(span@),
{
    let color = match span.style.fg {
        Some(c) => color_name(c).to_string(),
        None => String::new(),
    };
    let bold: u16 = if span.style.modifier.bold {
        BOLD_BIT
    } else {
        0
    };
    let dim: u16 = if span.style.modifier.dim {
        DIM_BIT
    } else {
        0
    };
    Ink { text: span.content.clone(), color, modifiers: bold + dim }
}

fn inked_spans(spans: &Vec<Span>) -> (r: InkLine)
    ensures
        r@ == ink_line(seqs::views(spans@)),
{
    let mut pieces: Vec<Ink> = Vec::new();
    for i in 0..spans.len()
        invariant
            pieces.len() == i,
            forall|j: int| 0 <= j < i ==> (#[trigger] pieces@[j])@ == ink_of(spans@[j]@),
    {
        pieces.push(inked(&spans[i]));
    }
    assert(seqs::views(pieces@) =~= ink_line(seqs::views(spans@)));
    InkLine { pieces }
}

fn inked_lines(lines: &[Line]) -> (r: Vec<InkLine>)
    ensures
        seqs::views(r@) == ink_lines(seqs::views(lines@)),
{
    let mut rows: Vec<InkLine> = Vec::new();
    for i in 0..lines.len()
        invariant
            rows.len() == i,
            forall|j: int| 0 <= j < i ==> (#[trigger] rows@[j])@ == ink_line(lines@[j]@),
    {
        rows.push(inked_spans(&lines[i].spans));
    }
    assert(seqs::views(rows@) =~= ink_lines(seqs::views(lines@)));
    rows
}

// ---------------------------------------------------------------------------
// Dialog
// ---------------------------------------------------------------------------

/// A detail that takes more bytes than this is cut there.
pub const MAX_DETAIL: usize = 50;

/// A dialog shows no more entries than this: there are no more digit keys.
pub const MAX_ENTRIES: usize = 9;

/// The part of a detail that is kept where it is cut.
pub open spec fn detail_head(detail: Seq<char>) -> Seq<char> {
    decode_utf8(encode_utf8(detail).take(MAX_DETAIL as int))
}

/// A detail as a dialog shows it.
pub open spec fn shown_detail(detail: Seq<char>) -> Seq<char> {
    if text::byte_len(detail) > MAX_DETAIL {
        detail_head(detail) + "..."@
    } else {
        detail
    }
}

/// The detail can be cut where it is too long: no character lies across the cut.
pub open spec fn can_be_cut(detail: Seq<char>) -> bool {
    text::byte_len(detail) > MAX_DETAIL ==> is_char_boundary(
        encode_utf8(detail),
        MAX_DETAIL as int,
    )
}

/// The details that a dialog shows can be cut where they are too long.
pub open spec fn entries_can_be_cut(entries: Seq<(Seq<char>, Seq<char>)>) -> bool {
    forall|i: int|
        0 <= i < entries.len() && i < MAX_ENTRIES ==> can_be_cut(#[trigger] entries[i].1)
}

/// The columns that an entry takes, counting a byte as one.
pub open spec fn entry_width(entry: (Seq<char>, Seq<char>)) -> int {
    5 + text::byte_len(entry.0) + 4 + seqs::least(
        text::byte_len(entry.1) as int,
        MAX_DETAIL as int + 3,
    )
}

/// The columns that the widest entry takes.
pub open spec fn widest_entry(entries: Seq<(Seq<char>, Seq<char>)>) -> int
    decreases entries.len(),
{
    if entries.len() == 0 {
        0
    } else {
        seqs::greatest(widest_entry(entries.drop_last()), entry_width(entries.last()))
    }
}

/// The columns inside the borders of a dialog: room for its entries, help text and title, and
/// never less than twenty.
pub open spec fn inner_width(d: DialogModel) -> int {
    seqs::greatest(
        seqs::greatest(
            seqs::greatest(widest_entry(d.entries), text::byte_len(d.help_text) as int + 2),
            text::byte_len(d.title) as int + 4,
        ),
        20,
    )
}

/// The columns of a dialog on a screen of this width.
pub open spec fn dialog_width(d: DialogModel, screen_width: u16) -> u16 {
    seqs::least(inner_width(d) + 2, screen_width as int) as u16
}

/// The rows of a dialog on a screen of this height: one for each entry, an empty one, the help
/// text and the borders.
pub open spec fn dialog_height(d: DialogModel, screen_height: u16) -> u16 {
    seqs::least(d.entries.len() as int + 4, screen_height as int) as u16
}

/// The rectangle of this size in the middle of the area, cut to it where it is larger.
pub open spec fn centered(width: u16, height: u16, area: Rect) -> Rect {
    Rect {
        x: (area.x + seqs::monus(area.width as int, width as int) / 2) as u16,
        y: (area.y + seqs::monus(area.height as int, height as int) / 2) as u16,
        width: seqs::least(width as int, area.width as int) as u16,
        height: seqs::least(height as int, area.height as int) as u16,
    }
}

/// Where a dialog lies.
pub open spec fn dialog_rect(d: DialogModel, area: Rect) -> Rect {
    centered(dialog_width(d, area.width), dialog_height(d, area.height), area)
}

/// Plain text.
pub open spec fn raw(content: Seq<char>) -> SpanModel {
    SpanModel { content, style: Style::plain_model() }
}

/// The line of the entry at position `i`: its number, in bold, its label and its detail.
pub open spec fn entry_line(i: int, entry: (Seq<char>, Seq<char>)) -> Seq<SpanModel> {
    seq![
        raw("  "@),
        SpanModel {
            content: text::decimal(i + 1) + ")"@,
            style: Style::plain_model().bold_model(),
        },
        raw(" "@ + entry.0 + "    "@ + shown_detail(entry.1)),
    ]
}

/// The lines of the entries that a dialog shows.
pub open spec fn entry_lines(entries: Seq<(Seq<char>, Seq<char>)>) -> Seq<Seq<SpanModel>> {
    entries.take(seqs::least(entries.len() as int, MAX_ENTRIES as int)).map(
        |i: int, e: (Seq<char>, Seq<char>)| entry_line(i, e),
    )
}

/// The lines of a dialog: its entries, an empty one, and the help text.
pub open spec fn dialog_lines_model(d: DialogModel) -> Seq<Seq<SpanModel>> {
    entry_lines(d.entries) + seq![Seq::empty(), seq![raw("  "@ + d.help_text)]]
}

/// The title of a dialog as its border shows it.
pub open spec fn dialog_title(d: DialogModel) -> Seq<char> {
    " "@ + d.title + " "@
}

/// The rectangle of this size in the middle of the area, cut to it where it is larger.
pub fn centered_rect(width: u16, height: u16, area: Rect) -> (r: Rect)
    requires
        area.x + seqs::monus(area.width as int, width as int) / 2 <= u16::MAX,
        area.y + seqs::monus(area.height as int, height as int) / 2 <= u16::MAX,
    ensures
        r.x == area.x + seqs::monus(area.width as int, width as int) / 2,
        r.y == area.y + seqs::monus(area.height as int, height as int) / 2,
        r.width == seqs::least(
            seqs::least(width as int, area.width as int),
            u16::MAX - r.x,
        ),
        r.height == seqs::least(
            seqs::least(height as int, area.height as int),
            u16::MAX - r.y,
        ),
        area.in_range() ==> r == centered(width, height, area) && r.in_range() && r.inside(area),
{
    let spare_x: u16 = if area.width > width {
        area.width - width
    } else {
        0
    };
    let spare_y: u16 = if area.height > height {
        area.height - height
    } else {
        0
    };
    Rect::new(
        area.x + spare_x / 2,
        area.y + spare_y / 2,
        if width < area.width {
            width
        } else {
            area.width
        },
        if height < area.height {
            height
        } else {
            area.height
        },
    )
}

fn capped_add(a: usize, b: usize) -> (r: usize)
    ensures
        r == seqs::least(a + b, usize::MAX as int),
{
    if a <= usize::MAX - b {
        a + b
    } else {
        usize::MAX
    }
}

fn larger(a: usize, b: usize) -> (r: usize)
    ensures
        r == seqs::greatest(a as int, b as int),
{
    if a >= b {
        a
    } else {
        b
    }
}

/// `n`, or `cap` where that is less.
fn capped(n: usize, cap: u16) -> (r: u16)
    ensures
        r == seqs::least(n as int, cap as int),
{
    if n < cap as usize {
        n as u16
    } else {
        cap
    }
}

/// The width and height of a dialog on a screen of this size.
pub fn dialog_size(dialog: &DialogState, area: Rect) -> (r: (u16, u16))
    ensures
        r.0 == dialog_width(dialog@, area.width),
        r.1 == dialog_height(dialog@, area.height),
{
    let ghost d = dialog@;
    let mut widest: usize = 0;
    for i in 0..dialog.entries.len()
        invariant
            d == dialog@,
            widest == seqs::least(widest_entry(d.entries.take(i as int)), usize::MAX as int),
    {
        let label: usize = byte_count(dialog.entries[i].0.as_str());
        let detail: usize = byte_count(dialog.entries[i].1.as_str());
        let kept: usize = if detail < MAX_DETAIL + 3 {
            detail
        } else {
            MAX_DETAIL + 3
        };
        let width: usize = capped_add(capped_add(label, 9), kept);
        assert(d.entries.take(i + 1).drop_last() =~= d.entries.take(i as int));
        assert(d.entries.take(i + 1).last() == d.entries[i as int]);
        widest = larger(widest, width);
    }
    assert(d.entries.take(dialog.entries.len() as int) =~= d.entries);
    let inner: usize = larger(
        larger(
            larger(widest, capped_add(byte_count(dialog.help_text), 2)),
            capped_add(byte_count(dialog.title), 4),
        ),
        20,
    );
    (
        capped(capped_add(inner, 2), area.width),
        capped(capped_add(dialog.entries.len(), 4), area.height),
    )
}

fn detail_text(detail: &String) -> (r: String)
    requires
        can_be_cut(detail@),
    ensures
        r@ == shown_detail(detail@),
{
    let bytes: usize = byte_count(detail.as_str());
    if bytes > MAX_DETAIL {
        let (head, _) = detail.as_str().split_at(MAX_DETAIL);
        proof {
            assert(encode_utf8(head@) =~= encode_utf8(detail@).take(MAX_DETAIL as int));
            encode_utf8_decode_utf8(head@);
        }
        joined(head, "...")
    } else {
        detail.clone()
    }
}

fn raw_span(content: String) -> (r: Span)
    ensures
        r@ == raw(content@),
{
    Span { content, style: Style::new() }
}

fn title_text(dialog: &DialogState) -> (r: String)
    ensures
        r@ == dialog_title(dialog@),
{
    let mut title = joined(" ", dialog.title);
    title.append(" ");
    title
}

/// The lines of a dialog.
pub fn dialog_lines(dialog: &DialogState) -> (r: Vec<Line>)
    requires
        entries_can_be_cut(dialog@.entries),
    ensures
        seqs::views(r@) == dialog_lines_model(dialog@),
{
    let ghost d = dialog@;
    let shown: usize = if dialog.entries.len() < MAX_ENTRIES {
        dialog.entries.len()
    } else {
        MAX_ENTRIES
    };
    let mut lines: Vec<Line> = Vec::new();
    for i in 0..shown
        invariant
            d == dialog@,
            entries_can_be_cut(d.entries),
            shown == seqs::least(d.entries.len() as int, MAX_ENTRIES as int),
            lines.len() == i,
            forall|j: int| 0 <= j < i ==> (#[trigger] lines@[j])@ == entry_line(j, d.entries[j]),
    {
        let entry = &dialog.entries[i];
        assert(can_be_cut(d.entries[i as int].1));
        let mut body = joined(" ", entry.0.as_str());
        body.append("    ");
        body.append(detail_text(&entry.1).as_str());
        let mut spans: Vec<Span> = Vec::new();
        spans.push(raw_span("  ".to_string()));
        spans.push(
            Span { content: joined(count_text(i + 1).as_str(), ")"), style: Style::new().bold() },
        );
        spans.push(raw_span(body));
        assert(seqs::views(spans@) =~= entry_line(i as int, d.entries[i as int]));
        lines.push(Line { spans });
    }
    let ghost listed = lines@;
    assert(seqs::views(listed) =~= entry_lines(d.entries));
    let blank: Vec<Span> = Vec::new();
    assert(seqs::views(blank@) =~= Seq::empty());
    lines.push(Line { spans: blank });
    let mut help: Vec<Span> = Vec::new();
    help.push(raw_span(joined("  ", dialog.help_text)));
    assert(seqs::views(help@) =~= seq![raw("  "@ + d.help_text)]);
    lines.push(Line { spans: help });
    assert(seqs::views(lines@) =~= seqs::views(listed) + seq![
        Seq::empty(),
        seq![raw("  "@ + d.help_text)],
    ]);
    lines
}

// ---------------------------------------------------------------------------
// Drawing
// ---------------------------------------------------------------------------

/// The log can be drawn in the area: the terminal library can lay its lines out, their rows are in
/// range with what is scrolled away, and where their text leaves the area, it lands on one of the
/// cells.
pub open spec fn log_fits(cells: Cells, area: Rect, state: AppModel) -> bool {
    let rows = ink_lines(state.log_lines);
    let scroll = log_scroll(state, area.height);
    &&& screen::can_wrap(rows, scroll as u16, area.width, area.height)
    &&& screen::in_rows(rows, scroll as u16, area)
    &&& screen::lands(cells, rows, scroll as u16, area)
}

/// The status bar can be drawn in the area: the terminal library can lay it out, and it ends on
/// one of the cells.
pub open spec fn status_fits(cells: Cells, area: Rect, scripts: Seq<ScriptViewModel>) -> bool {
    let line = ink_line(status_spans(scripts));
    &&& screen::line_fits(line, area)
    &&& screen::line_lands(cells, line, area)
}

/// The dialog can be drawn: the details that are too long can be cut, the terminal library can
/// lay out the title and the lines, and where their text leaves the box, it lands on one of the
/// cells.
pub open spec fn dialog_fits(cells: Cells, area: Rect, d: DialogModel) -> bool {
    let rows = ink_lines(dialog_lines_model(d));
    let inner = screen::inner_model(dialog_rect(d, area));
    &&& entries_can_be_cut(d.entries)
    &&& screen::title_fits(dialog_title(d), dialog_rect(d, area))
    &&& screen::can_wrap(rows, 0, inner.width, inner.height)
    &&& screen::in_rows(rows, 0, inner)
    &&& screen::lands(cells, rows, 0, inner)
}

/// The text of the log, of the status bar and of the dialog, if there is one, stays where it
/// belongs.
pub open spec fn nothing_strays(area: Rect, state: AppModel) -> bool {
    let (upper, lower) = screen::split_model(area);
    &&& !screen::line_overhangs(ink_line(status_spans(state.scripts)), lower)
    &&& screen::stays(
        ink_lines(state.log_lines),
        log_scroll(state, upper.height) as u16,
        upper,
    )
    &&& state.dialog matches Some(d) ==> screen::stays(
        ink_lines(dialog_lines_model(d)),
        0,
        screen::inner_model(dialog_rect(d, area)),
    )
}

/// The picture can be drawn: every cell of the area is there, and each part can be drawn.
pub open spec fn picture_fits(cells: Cells, area: Rect, state: AppModel) -> bool {
    &&& screen::covers(cells, area)
    &&& area.in_range()
    &&& log_fits(cells, screen::split_model(area).0, state)
    &&& status_fits(cells, screen::split_model(area).1, state.scripts)
    &&& state.dialog matches Some(d) ==> dialog_fits(cells, area, d)
}

/// The surface with the log on it.
pub open spec fn log_cells(cells: Cells, area: Rect, state: AppModel) -> Cells {
    screen::wrapped_cells(
        cells,
        ink_lines(state.log_lines),
        log_scroll(state, area.height) as u16,
        area,
    )
}

/// The surface with the status bar on it.
pub open spec fn status_cells(cells: Cells, area: Rect, scripts: Seq<ScriptViewModel>) -> Cells {
    screen::line_cells(cells, ink_line(status_spans(scripts)), area)
}

/// The surface with a dialog in the middle of the area, on blank ground.
pub open spec fn dialog_cells(cells: Cells, area: Rect, d: DialogModel) -> Cells {
    let place = dialog_rect(d, area);
    screen::boxed_cells(
        screen::cleared(cells, place),
        dialog_title(d),
        ink_lines(dialog_lines_model(d)),
        place,
    )
}

/// The surface with the whole picture on it: the log, the status bar in the last row, and the
/// dialog, if there is one, over them.
pub open spec fn ui_cells(cells: Cells, area: Rect, state: AppModel) -> Cells {
    let (upper, lower) = screen::split_model(area);
    let below = status_cells(log_cells(cells, upper, state), lower, state.scripts);
    match state.dialog {
        Some(d) => dialog_cells(below, area, d),
        None => below,
    }
}

/// Draws the picture: the log, the status bar in the last row, and the dialog, if there is one,
/// over them. As long as no text strays, cells outside the frame's area are left alone, and a
/// dialog hides nothing but what lies behind its box.
pub fn render_ui(frame: &mut Frame, state: &AppState)
    requires
        picture_fits(
            screen::frame_cells(*old(frame)),
            screen::frame_area(*old(frame)),
            state@,
        ),
    ensures
        screen::frame_area(*final(frame)) == screen::frame_area(*old(frame)),
        screen::frame_cells(*final(frame)) == ui_cells(
            screen::frame_cells(*old(frame)),
            screen::frame_area(*old(frame)),
            state@,
        ),
        nothing_strays(screen::frame_area(*old(frame)), state@) ==> screen::same_outside(
            screen::frame_cells(*old(frame)),
            screen::frame_cells(*final(frame)),
            screen::frame_area(*old(frame)),
        ),
        nothing_strays(screen::frame_area(*old(frame)), state@) ==> (state@.dialog matches Some(d)
            ==> screen::same_outside(
            ui_cells(
                screen::frame_cells(*old(frame)),
                screen::frame_area(*old(frame)),
                AppModel { dialog: None, ..state@ },
            ),
            screen::frame_cells(*final(frame)),
            dialog_rect(d, screen::frame_area(*old(frame))),
        )),
{
    let area = area_of(frame);
    let (upper, lower) = split_rows(area);
    assert forall|x: int, y: int| #[trigger] upper.has(x, y) implies area.has(x, y) by {}
    assert forall|x: int, y: int| #[trigger] lower.has(x, y) implies area.has(x, y) by {}
    render_log_area(frame, upper, state);
    render_status_bar(frame, lower, state.scripts);
    if let Some(dialog) = &state.dialog {
        let whole = area_of(frame);
        render_dialog(frame, whole, dialog);
    }
}

/// How far the text of the log is scrolled in an area of this height.
fn log_offset(state: &AppState, height: u16) -> (r: u16)
    ensures
        r == log_scroll(state@, height),
{
    let offset: usize = first_line(
        state.log_lines.len(),
        height as usize,
        state.scroll_offset,
    );
    capped(offset, u16::MAX)
}

/// Draws the log, from the line on that is asked for, or so that its last line shows.
fn render_log_area(frame: &mut Frame, area: Rect, state: &AppState)
    requires
        screen::covers(screen::frame_cells(*old(frame)), area),
        area.in_range(),
        log_fits(screen::frame_cells(*old(frame)), area, state@),
    ensures
        screen::frame_area(*final(frame)) == screen::frame_area(*old(frame)),
        screen::frame_cells(*final(frame)) == log_cells(
            screen::frame_cells(*old(frame)),
            area,
            state@,
        ),
        screen::frame_cells(*final(frame)).dom() == screen::frame_cells(*old(frame)).dom(),
        screen::stays(
            ink_lines(state@.log_lines),
            log_scroll(state@, area.height) as u16,
            area,
        ) ==> screen::same_outside(
            screen::frame_cells(*old(frame)),
            screen::frame_cells(*final(frame)),
            area,
        ),
{
    let scroll: u16 = log_offset(state, area.height);
    let rows = inked_lines(state.log_lines);
    paint_wrapped(frame, &rows, scroll, area);
}

/// Draws the status bar.
fn render_status_bar(frame: &mut Frame, area: Rect, scripts: &[ScriptView])
    requires
        screen::covers(screen::frame_cells(*old(frame)), area),
        area.in_range(),
        status_fits(screen::frame_cells(*old(frame)), area, seqs::views(scripts@)),
    ensures
        screen::frame_area(*final(frame)) == screen::frame_area(*old(frame)),
        screen::frame_cells(*final(frame)) == status_cells(
            screen::frame_cells(*old(frame)),
            area,
            seqs::views(scripts@),
        ),
        screen::frame_cells(*final(frame)).dom() == screen::frame_cells(*old(frame)).dom(),
        !screen::line_overhangs(ink_line(status_spans(seqs::views(scripts@))), area)
            ==> screen::same_outside(
            screen::frame_cells(*old(frame)),
            screen::frame_cells(*final(frame)),
            area,
        ),
{
    let spans = build_status_spans(scripts);
    let line = inked_spans(&spans);
    paint_line(frame, &line, area);
}

/// Draws a dialog in the middle of the area.
fn render_dialog(frame: &mut Frame, area: Rect, dialog: &DialogState)
    requires
        screen::covers(screen::frame_cells(*old(frame)), area),
        area.in_range(),
        dialog_fits(screen::frame_cells(*old(frame)), area, dialog@),
    ensures
        screen::frame_area(*final(frame)) == screen::frame_area(*old(frame)),
        screen::frame_cells(*final(frame)) == dialog_cells(
            screen::frame_cells(*old(frame)),
            area,
            dialog@,
        ),
        screen::stays(
            ink_lines(dialog_lines_model(dialog@)),
            0,
            screen::inner_model(dialog_rect(dialog@, area)),
        ) ==> screen::same_outside(
            screen::frame_cells(*old(frame)),
            screen::frame_cells(*final(frame)),
            dialog_rect(dialog@, area),
        ),
{
    let (width, height) = dialog_size(dialog, area);
    let place = centered_rect(width, height, area);
    assert(screen::covers(screen::frame_cells(*frame), place)) by {
        assert forall|x: int, y: int| #[trigger]
            place.has(x, y) implies screen::frame_cells(*frame).dom().contains((x, y)) by {
            assert(area.has(x, y));
        }
    }
    paint_blank(frame, place);
    let lines = dialog_lines(dialog);
    let rows = inked_lines(lines.as_slice());
    let title = title_text(dialog);
    paint_boxed(frame, &title, &rows, place);
}

/// The area inside the border of a box.
pub fn inner_area(area: Rect) -> (r: Rect)
    requires
        area.in_range(),
    ensures
        r == screen::inner_model(area),
{
    Rect {
        x: if area.width > 0 {
            area.x + 1
        } else {
            area.x
        },
        y: if area.height > 0 {
            area.y + 1
        } else {
            area.y
        },
        width: if area.width > 2 {
            area.width - 2
        } else {
            0
        },
        height: if area.height > 2 {
            area.height - 2
        } else {
            0
        },
    }
}

/// No character lies across the place where the detail is cut, if it is.
fn cut_works(detail: &String) -> (r: bool)
    ensures
        r == can_be_cut(detail@),
{
    byte_count(detail.as_str()) <= MAX_DETAIL || detail.as_str().is_char_boundary(MAX_DETAIL)
}

/// The status bar can be drawn in the area, on a canvas that has the first `count` cells of its
/// rectangle.
fn check_status(scripts: &[ScriptView], area: Rect, canvas: Rect, count: usize) -> (r: bool)
    requires
        area.in_range(),
    ensures
        r == ({
            let line = ink_line(status_spans(seqs::views(scripts@)));
            &&& screen::line_fits(line, area)
            &&& screen::line_overhangs(line, area) ==> screen::on_canvas(
                canvas,
                count as int,
                area.x + area.width,
                area.y as int,
            )
        }),
{
    let spans = build_status_spans(scripts);
    let line = inked_spans(&spans);
    let widths = widths_in(&line);
    (area.width == 0 || area.height == 0 || check_cut(&widths, area.width)) && overhang_lands(
        &widths,
        area,
        canvas,
        count,
    )
}

/// The log can be drawn in the area, on a canvas that has the first `count` cells of its
/// rectangle.
fn check_log(state: &AppState, area: Rect, canvas: Rect, count: usize) -> (r: bool)
    requires
        area.in_range(),
    ensures
        r == ({
            let rows = ink_lines(state@.log_lines);
            let scroll = log_scroll(state@, area.height);
            &&& screen::can_wrap(rows, scroll as u16, area.width, area.height)
            &&& screen::in_rows(rows, scroll as u16, area)
            &&& screen::lands_on(canvas, count as int, rows, scroll as u16, area)
        }),
{
    let scroll: u16 = log_offset(state, area.height);
    let rows = inked_lines(state.log_lines);
    check_wrap(&rows, scroll, area.width, area.height) && strays_land(
        &rows,
        scroll,
        area,
        canvas,
        count,
    )
}

/// The dialog can be drawn, on a canvas that has the first `count` cells of its rectangle.
fn check_dialog(dialog: &DialogState, area: Rect, canvas: Rect, count: usize) -> (r: bool)
    requires
        area.in_range(),
    ensures
        r == ({
            let rows = ink_lines(dialog_lines_model(dialog@));
            let inner = screen::inner_model(dialog_rect(dialog@, area));
            &&& entries_can_be_cut(dialog@.entries)
            &&& screen::title_fits(dialog_title(dialog@), dialog_rect(dialog@, area))
            &&& screen::can_wrap(rows, 0, inner.width, inner.height)
            &&& screen::in_rows(rows, 0, inner)
            &&& screen::lands_on(canvas, count as int, rows, 0, inner)
        }),
{
    let ghost entries = dialog@.entries;
    let shown: usize = if dialog.entries.len() < MAX_ENTRIES {
        dialog.entries.len()
    } else {
        MAX_ENTRIES
    };
    for i in 0..shown
        invariant
            entries == dialog@.entries,
            shown == seqs::least(entries.len() as int, MAX_ENTRIES as int),
            forall|j: int| 0 <= j < i ==> can_be_cut(#[trigger] entries[j].1),
    {
        if !cut_works(&dialog.entries[i].1) {
            assert(!can_be_cut(entries[i as int].1));
            return false;
        }
    }
    let (width, height) = dialog_size(dialog, area);
    let place = centered_rect(width, height, area);
    if !check_title(&title_text(dialog), place) {
        return false;
    }
    let inner = inner_area(place);
    let lines = dialog_lines(dialog);
    let rows = inked_lines(lines.as_slice());
    check_wrap(&rows, 0, inner.width, inner.height) && strays_land(
        &rows,
        0,
        inner,
        canvas,
        count,
    )
}

/// Draws the picture where it can be drawn, and leaves the frame as it is where it cannot: true
/// if it was drawn.
pub fn render_if_it_fits(frame: &mut Frame, state: &AppState) -> (r: bool)
    ensures
        screen::frame_area(*final(frame)) == screen::frame_area(*old(frame)),
        r == picture_fits(
            screen::frame_cells(*old(frame)),
            screen::frame_area(*old(frame)),
            state@,
        ),
        screen::frame_cells(*final(frame)) == if r {
            ui_cells(
                screen::frame_cells(*old(frame)),
                screen::frame_area(*old(frame)),
                state@,
            )
        } else {
            screen::frame_cells(*old(frame))
        },
{
    let area = area_of(frame);
    if area.width > u16::MAX - area.x || area.height > u16::MAX - area.y {
        return false;
    }
    let (canvas, count) = canvas_of(frame);
    let ghost cells = screen::frame_cells(*frame);
    if !canvas_covers(canvas, count, area) {
        assert(!screen::covers(cells, area));
        return false;
    }
    assert(screen::covers(cells, area));
    let (upper, lower) = split_rows(area);
    proof {
        screen::lemma_lands(
            cells,
            canvas,
            count as int,
            ink_lines(state@.log_lines),
            log_scroll(state@, upper.height) as u16,
            upper,
        );
    }
    if !check_log(state, upper, canvas, count) || !check_status(
        state.scripts,
        lower,
        canvas,
        count,
    ) {
        return false;
    }
    if let Some(dialog) = &state.dialog {
        proof {
            screen::lemma_lands(
                cells,
                canvas,
                count as int,
                ink_lines(dialog_lines_model(dialog@)),
                0,
                screen::inner_model(dialog_rect(dialog@, area)),
            );
        }
        if !check_dialog(dialog, area, canvas, count) {
            return false;
        }
    }
    render_ui(frame, state);
    true
}

} // verus!
