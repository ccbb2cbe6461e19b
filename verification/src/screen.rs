//! The drawing surface: frames of the terminal library, and what drawing on one does to it.
use ratatui::buffer::{Buffer, Cell};
use ratatui::layout;
use ratatui::layout::{Constraint, Layout};
use ratatui::style::{Modifier, Style};
use ratatui::text::{Line, Span};
use ratatui::widgets::{Block, Clear, Paragraph, Widget, Wrap};
use ratatui::Frame;
use vstd::prelude::*;

use crate::seqs;

verus! {

/// A rectangle of cells.
#[derive(Clone, Copy, Debug, PartialEq, Eq, Structural)]
pub struct Rect {
    pub x: u16,
    pub y: u16,
    pub width: u16,
    pub height: u16,
}

impl Rect {
    /// The rectangle's edges are coordinates.
    pub open spec fn in_range(self) -> bool {
        self.x + self.width <= u16::MAX && self.y + self.height <= u16::MAX
    }

    /// The cell in column `x` and row `y` belongs to the rectangle.
    pub open spec fn has(self, x: int, y: int) -> bool {
        self.x <= x < self.x + self.width && self.y <= y < self.y + self.height
    }

    /// Every cell of `self` belongs to `outer`.
    pub open spec fn inside(self, outer: Rect) -> bool {
        forall|x: int, y: int| #[trigger] self.has(x, y) ==> outer.has(x, y)
    }

    /// The rectangle with its upper left corner at `x` and `y`; one that would not end within
    /// the range of coordinates is cut there.
    pub fn new(x: u16, y: u16, width: u16, height: u16) -> (r: Rect)
        ensures
            r.x == x,
            r.y == y,
            r.width == seqs::least(width as int, u16::MAX - x),
            r.height == seqs::least(height as int, u16::MAX - y),
    {
        let right: u16 = u16::MAX - x;
        let below: u16 = u16::MAX - y;
        Rect {
            x,
            y,
            width: if width > right {
                right
            } else {
                width
            },
            height: if height > below {
                below
            } else {
                height
            },
        }
    }
}

/// A frame of the terminal library: the surface that one picture is drawn on.
#[verifier::external_type_specification]
#[verifier::external_body]
pub struct ExFrame<'a>(Frame<'a>);

/// What a cell shows. The colours are as the terminal library writes them out.
pub struct CellModel {
    pub symbol: Seq<char>,
    pub fg: Seq<char>,
    pub bg: Seq<char>,
    pub underline: Seq<char>,
    pub modifiers: u16,
    pub skip: bool,
}

/// The cells of a surface, by column and row.
pub type Cells = Map<(int, int), CellModel>;

/// A cell that shows nothing.
pub open spec fn blank() -> CellModel {
    CellModel {
        symbol: " "@,
        fg: "Reset"@,
        bg: "Reset"@,
        underline: "Reset"@,
        modifiers: 0,
        skip: false,
    }
}

/// The area that a frame is for.
pub uninterp spec fn frame_area(frame: Frame<'_>) -> Rect;

/// The cells that can be drawn on in a frame, and what they show.
pub uninterp spec fn frame_cells(frame: Frame<'_>) -> Map<(int, int), CellModel>;

/// Every cell of the rectangle is there.
pub open spec fn covers(cells: Cells, area: Rect) -> bool {
    forall|x: int, y: int| #[trigger] area.has(x, y) ==> cells.dom().contains((x, y))
}

/// The place of the cell in column `x` and row `y` when the cells of a canvas are counted row by
/// row.
pub open spec fn place(canvas: Rect, x: int, y: int) -> int {
    (y - canvas.y) * canvas.width + (x - canvas.x)
}

/// A canvas that has the first `count` cells of its rectangle has the cell in column `x` and row
/// `y`. The last column and row of all cannot be reached.
pub open spec fn on_canvas(canvas: Rect, count: int, x: int, y: int) -> bool {
    &&& canvas.x <= x < seqs::least(canvas.x + canvas.width, u16::MAX as int)
    &&& canvas.y <= y < seqs::least(canvas.y + canvas.height, u16::MAX as int)
    &&& place(canvas, x, y) < count
}

/// The cells are those of a canvas that has the first `count` cells of its rectangle.
pub open spec fn is_canvas(cells: Cells, canvas: Rect, count: int) -> bool {
    forall|x: int, y: int| #[trigger]
        cells.dom().contains((x, y)) <==> on_canvas(canvas, count, x, y)
}

/// The cells outside the rectangle show the same.
pub open spec fn same_outside(before: Cells, after: Cells, area: Rect) -> bool {
    forall|x: int, y: int|
        before.dom().contains((x, y)) && !area.has(x, y) ==> #[trigger] after[(x, y)]
            == before[(x, y)]
}

/// The cells, with those of the rectangle blank.
pub open spec fn cleared(cells: Cells, area: Rect) -> Cells {
    Map::new(
        |p: (int, int)| cells.dom().contains(p),
        |p: (int, int)|
            if area.has(p.0, p.1) {
                blank()
            } else {
                cells[p]
            },
    )
}

/// A piece of text as the terminal library takes it: the name of its colour, empty for none,
/// and the bits of its emphasis.
pub struct Ink {
    pub text: String,
    pub color: String,
    pub modifiers: u16,
}

/// The model of an [`Ink`].
pub struct InkModel {
    pub text: Seq<char>,
    pub color: Seq<char>,
    pub modifiers: u16,
}

impl View for Ink {
    type V = InkModel;

    open spec fn view(&self) -> InkModel {
        InkModel { text: self.text@, color: self.color@, modifiers: self.modifiers }
    }
}

/// A line of text for the terminal library.
pub struct InkLine {
    pub pieces: Vec<Ink>,
}

impl View for InkLine {
    type V = Seq<InkModel>;

    open spec fn view(&self) -> Seq<InkModel> {
        seqs::views(self.pieces@)
    }
}

/// The widths of the symbols of a text, in columns. A symbol is what takes one place on the
/// screen, such as a letter with its accents.
pub uninterp spec fn symbol_widths(text: Seq<char>) -> Seq<usize>;

/// The width of a title, in columns.
pub uninterp spec fn title_width(title: Seq<char>) -> usize;

/// The terminal library counts columns in sixteen bits, which hold fewer numbers than this.
pub const COLUMN_RANGE: usize = 0x1_0000;

/// The columns that a symbol of width `w` counts for: what sixteen bits hold of it, and nothing
/// where that is past the limit, for then the symbol is left out.
pub open spec fn counted(w: usize, limit: int) -> int {
    if w as int % COLUMN_RANGE as int > limit {
        0
    } else {
        w as int % COLUMN_RANGE as int
    }
}

/// The columns that the widest symbol counts for.
pub open spec fn widest_symbol(widths: Seq<usize>, limit: int) -> int
    decreases widths.len(),
{
    if widths.len() == 0 {
        0
    } else {
        seqs::greatest(widest_symbol(widths.drop_last(), limit), counted(widths.last(), limit))
    }
}

/// The widths of the symbols of a line, one piece after the other.
pub open spec fn line_widths(line: Seq<InkModel>) -> Seq<usize>
    decreases line.len(),
{
    if line.len() == 0 {
        Seq::empty()
    } else {
        line_widths(line.drop_last()) + symbol_widths(line.last().text)
    }
}

/// The columns that the widest symbol of the rows counts for.
pub open spec fn widest_in(rows: Seq<Seq<InkModel>>, limit: int) -> int
    decreases rows.len(),
{
    if rows.len() == 0 {
        0
    } else {
        seqs::greatest(
            widest_in(rows.drop_last(), limit),
            widest_symbol(line_widths(rows.last()), limit),
        )
    }
}

/// The columns that the first `n` symbols count for.
pub open spec fn columns(widths: Seq<usize>, n: int, limit: int) -> int
    decreases n,
{
    if n <= 0 {
        0
    } else {
        columns(widths, n - 1, limit) + counted(widths[n - 1], limit)
    }
}

/// A symbol of this width is drawn, but sixteen bits hold nothing of its width.
pub open spec fn hides(w: usize) -> bool {
    w > 0 && w as int % COLUMN_RANGE as int == 0
}

/// No symbol hides its width.
pub open spec fn keeps_widths(widths: Seq<usize>) -> bool {
    forall|i: int| 0 <= i < widths.len() ==> !hides(#[trigger] widths[i])
}

/// Every symbol has a width in sixteen bits.
pub open spec fn all_wide(widths: Seq<usize>) -> bool {
    forall|i: int|
        0 <= i < widths.len() ==> #[trigger] widths[i] as int % COLUMN_RANGE as int > 0
}

/// A row of symbols of these widths can be wrapped at this width: the sums that the terminal
/// library makes of them fit in sixteen bits. None is larger than that of the whole row; and none
/// is larger than that of three symbols and a line with a column left, less one column where every
/// symbol has a width. A symbol that hides its width may start behind the last column that is
/// counted, and nothing can be drawn in the last column of all.
pub open spec fn row_fits(widths: Seq<usize>, width: u16) -> bool {
    ||| columns(widths, widths.len() as int, width as int) + (if keeps_widths(widths) {
        0int
    } else {
        1
    }) < COLUMN_RANGE
    ||| width + 3 * widest_symbol(widths, width as int) <= COLUMN_RANGE + (if all_wide(widths) {
        1int
    } else {
        0
    })
}

/// The rows can be wrapped for an area of this width and height, from line `scroll` of the
/// wrapped text on. Nothing is laid out where there is no text or no room for it. Every row makes
/// at least one line, and no further lines are laid out than show.
pub open spec fn can_wrap(
    rows: Seq<Seq<InkModel>>,
    scroll: u16,
    width: u16,
    height: u16,
) -> bool {
    rows.len() > 0 && width > 0 && height > 0 ==> {
        &&& height + scroll <= u16::MAX
        &&& forall|i: int|
            0 <= i < rows.len() && i < height + scroll ==> row_fits(
                line_widths(#[trigger] rows[i]),
                width,
            )
    }
}

/// Symbols of these widths can be cut off at this width: the terminal library adds the width of a
/// symbol to those before it, until they are past the width.
pub open spec fn can_cut(widths: Seq<usize>, width: u16) -> bool {
    forall|k: int|
        0 <= k < widths.len() && #[trigger] columns(widths, k, width as int) <= width ==> columns(
            widths,
            k,
            width as int,
        ) + counted(widths[k], width as int) < COLUMN_RANGE
}

/// Of symbols of these widths, cut off at this width, one that hides its width starts behind the
/// last column.
pub open spec fn overhangs(widths: Seq<usize>, width: u16) -> bool {
    exists|k: int|
        0 <= k < widths.len() && hides(#[trigger] widths[k]) && columns(widths, k, width as int)
            == width
}

/// The line can be laid out in the area, cut off at its width.
pub open spec fn line_fits(line: Seq<InkModel>, area: Rect) -> bool {
    area.width > 0 && area.height > 0 ==> can_cut(line_widths(line), area.width)
}

/// The line, cut off at the width of the area, does not end in it.
pub open spec fn line_overhangs(line: Seq<InkModel>, area: Rect) -> bool {
    area.width > 0 && area.height > 0 && overhangs(line_widths(line), area.width)
}

/// The line ends in the area, or on the cell to the right of it.
pub open spec fn line_lands(cells: Cells, line: Seq<InkModel>, area: Rect) -> bool {
    line_overhangs(line, area) ==> cells.dom().contains((area.x + area.width, area.y as int))
}

/// The cells outside the rectangle show the same, but for the one that the line ends on.
pub open spec fn same_but_for_overhang(
    before: Cells,
    after: Cells,
    line: Seq<InkModel>,
    area: Rect,
) -> bool {
    forall|x: int, y: int|
        before.dom().contains((x, y)) && !area.has(x, y) && !(line_overhangs(line, area) && x
            == area.x + area.width && y == area.y) ==> #[trigger] after[(x, y)] == before[(x, y)]
}

/// A title of this width can be laid out: the terminal library adds a column to it.
pub open spec fn has_a_column_left(width: usize) -> bool {
    width as int % COLUMN_RANGE as int != COLUMN_RANGE - 1
}

/// The title can be laid out.
pub open spec fn can_title(title: Seq<char>) -> bool {
    has_a_column_left(title_width(title))
}

/// The title can be laid out on the border of a box in the area. Where that leaves no room between
/// its corners, the title is not laid out.
pub open spec fn title_fits(title: Seq<char>, area: Rect) -> bool {
    area.width > 2 && area.height > 0 ==> can_title(title)
}

/// The symbols of an empty surface, row by row, after the rows were drawn at its upper left
/// corner, wrapped at `width` and from line `scroll` of the wrapped text on. Cells that nothing
/// was drawn on show `mark`.
pub uninterp spec fn trial_symbols(
    mark: Seq<char>,
    rows: Seq<Seq<InkModel>>,
    scroll: u16,
    width: u16,
    height: u16,
    surface_width: u16,
) -> Seq<Seq<char>>;

/// The width of a surface that text which leaves an area of this width on the right does not
/// leave.
pub open spec fn trial_width(rows: Seq<Seq<InkModel>>, width: u16) -> int {
    seqs::least(width + widest_in(rows, width as int), u16::MAX as int)
}

/// The symbols of such a surface after the rows were drawn at its left. A line break stands for
/// nothing: it is never drawn.
pub open spec fn trial(rows: Seq<Seq<InkModel>>, scroll: u16, area: Rect) -> Seq<Seq<char>> {
    trial_symbols(
        "\n"@,
        rows,
        scroll,
        area.width,
        area.height,
        trial_width(rows, area.width) as u16,
    )
}

/// The column of the frame that the cell at `i` of a trial stands for.
pub open spec fn trial_x(rows: Seq<Seq<InkModel>>, area: Rect, i: int) -> int {
    area.x + i % trial_width(rows, area.width)
}

/// The row of the frame that the cell at `i` of a trial stands for.
pub open spec fn trial_y(rows: Seq<Seq<InkModel>>, area: Rect, i: int) -> int {
    area.y + i / trial_width(rows, area.width)
}

/// In a trial, something was drawn at `i`.
pub open spec fn drawn(rows: Seq<Seq<InkModel>>, scroll: u16, area: Rect, i: int) -> bool {
    &&& 0 <= i < trial(rows, scroll, area).len()
    &&& trial(rows, scroll, area)[i] != "\n"@
}

/// In a trial, something was drawn at `i`, to the right of the area. The terminal library wraps
/// before symbols that would end past the width, and misses some that start past it: wide ones
/// behind symbols without a width, and in areas hardly wider than they are.
pub open spec fn stray(rows: Seq<Seq<InkModel>>, scroll: u16, area: Rect, i: int) -> bool {
    &&& drawn(rows, scroll, area, i)
    &&& trial_x(rows, area, i) >= area.x + area.width
}

/// The text stays in the area.
pub open spec fn stays(rows: Seq<Seq<InkModel>>, scroll: u16, area: Rect) -> bool {
    forall|i: int| !#[trigger] stray(rows, scroll, area, i)
}

/// Where text is drawn, its row is in range when the rows that are scrolled away are counted too.
pub open spec fn in_rows(rows: Seq<Seq<InkModel>>, scroll: u16, area: Rect) -> bool {
    forall|i: int| #[trigger]
        drawn(rows, scroll, area, i) ==> trial_y(rows, area, i) + scroll <= u16::MAX
}

/// Where the text leaves the area, it lands on one of the cells.
pub open spec fn lands(
    cells: Cells,
    rows: Seq<Seq<InkModel>>,
    scroll: u16,
    area: Rect,
) -> bool {
    forall|i: int| #[trigger]
        stray(rows, scroll, area, i) ==> cells.dom().contains(
            (trial_x(rows, area, i), trial_y(rows, area, i)),
        )
}

/// Where the text leaves the area, it lands on the canvas that has the first `count` cells of its
/// rectangle.
pub open spec fn lands_on(
    canvas: Rect,
    count: int,
    rows: Seq<Seq<InkModel>>,
    scroll: u16,
    area: Rect,
) -> bool {
    forall|i: int| #[trigger]
        stray(rows, scroll, area, i) ==> on_canvas(
            canvas,
            count,
            trial_x(rows, area, i),
            trial_y(rows, area, i),
        )
}

/// The text leaves the area for the cell in column `x` and row `y`.
pub open spec fn strays_to(
    rows: Seq<Seq<InkModel>>,
    scroll: u16,
    area: Rect,
    x: int,
    y: int,
) -> bool {
    exists|i: int| #[trigger]
        stray(rows, scroll, area, i) && x == trial_x(rows, area, i) && y == trial_y(rows, area, i)
}

/// The cells outside the rectangle show the same, but for those that the text leaves it for.
pub open spec fn same_but_for_strays(
    before: Cells,
    after: Cells,
    area: Rect,
    rows: Seq<Seq<InkModel>>,
    scroll: u16,
    text_area: Rect,
) -> bool {
    forall|x: int, y: int|
        before.dom().contains((x, y)) && !area.has(x, y) && !strays_to(
            rows,
            scroll,
            text_area,
            x,
            y,
        ) ==> #[trigger] after[(x, y)] == before[(x, y)]
}

/// The area inside the border of a box.
pub open spec fn inner_model(area: Rect) -> Rect {
    Rect {
        x: (area.x + seqs::least(area.width as int, 1)) as u16,
        y: (area.y + seqs::least(area.height as int, 1)) as u16,
        width: seqs::monus(area.width as int, 2) as u16,
        height: seqs::monus(area.height as int, 2) as u16,
    }
}

/// What a frame shows after the rows were drawn in the area, wrapped at its width, from line
/// `scroll` of the wrapped text on.
pub uninterp spec fn wrapped_cells(
    before: Map<(int, int), CellModel>,
    rows: Seq<Seq<InkModel>>,
    scroll: u16,
    area: Rect,
) -> Map<(int, int), CellModel>;

/// What a frame shows after the line was drawn in the area, cut off at its width.
pub uninterp spec fn line_cells(
    before: Map<(int, int), CellModel>,
    line: Seq<InkModel>,
    area: Rect,
) -> Map<(int, int), CellModel>;

/// What a frame shows after a box with the title was drawn around the area, and the rows in it,
/// wrapped at its width.
pub uninterp spec fn boxed_cells(
    before: Map<(int, int), CellModel>,
    title: Seq<char>,
    rows: Seq<Seq<InkModel>>,
    area: Rect,
) -> Map<(int, int), CellModel>;

/// The upper and the lower part of an area: the lower one takes one row, where there is more
/// than one.
pub open spec fn split_model(area: Rect) -> (Rect, Rect) {
    let lower: u16 = if area.height >= 2 {
        1
    } else {
        0
    };
    let upper: u16 = (area.height - lower) as u16;
    (
        Rect { height: upper, ..area },
        Rect { y: (area.y + upper) as u16, height: lower, ..area },
    )
}

/// Calls `Frame::area`: the area that the frame is for.
#[verifier::external_body]
pub(crate) fn area_of(frame: &Frame) -> (r: Rect)
    ensures
        r == frame_area(*frame),
{
    let area = frame.area();
    Rect { x: area.x, y: area.y, width: area.width, height: area.height }
}

/// Calls `Frame::buffer_mut`: the area of the frame's buffer and the number of its cells. The
/// buffer holds its cells row by row, and those of its area that it holds can be drawn on.
#[verifier::external_body]
pub(crate) fn canvas_of(frame: &mut Frame) -> (r: (Rect, usize))
    ensures
        frame_area(*final(frame)) == frame_area(*old(frame)),
        frame_cells(*final(frame)) == frame_cells(*old(frame)),
        is_canvas(frame_cells(*final(frame)), r.0, r.1 as int),
{
    let buffer = frame.buffer_mut();
    let area = buffer.area;
    (
        Rect { x: area.x, y: area.y, width: area.width, height: area.height },
        buffer.content.len(),
    )
}

/// A cell above and to the left of one that the canvas has, within its rectangle, is there too.
proof fn lemma_earlier_place(canvas: Rect, count: int, x: int, y: int, far_x: int, far_y: int)
    requires
        on_canvas(canvas, count, far_x, far_y),
        canvas.x <= x <= far_x,
        canvas.y <= y <= far_y,
    ensures
        on_canvas(canvas, count, x, y),
{
    let rows = y - canvas.y;
    let far_rows = far_y - canvas.y;
    let width = canvas.width as int;
    assert(rows * width <= far_rows * width) by (nonlinear_arith)
        requires
            rows <= far_rows,
            0 <= width,
    ;
}

/// The canvas that has the first `count` cells of its rectangle has this cell.
pub(crate) fn has_cell(canvas: Rect, count: usize, x: u16, y: u16) -> (r: bool)
    ensures
        r == on_canvas(canvas, count as int, x as int, y as int),
{
    if x < canvas.x || y < canvas.y || x == u16::MAX || y == u16::MAX {
        return false;
    }
    let column: u16 = x - canvas.x;
    let row: u16 = y - canvas.y;
    if column >= canvas.width || row >= canvas.height {
        return false;
    }
    let width: u16 = canvas.width;
    assert(row * width <= 0xffff * 0xffff) by (nonlinear_arith)
        requires
            row <= 0xffff,
            width <= 0xffff,
    ;
    row as u64 * width as u64 + (column as u64) < count as u64
}

/// Every cell of the area is on the canvas that has the first `count` cells of its rectangle.
pub fn canvas_covers(canvas: Rect, count: usize, area: Rect) -> (r: bool)
    requires
        area.in_range(),
    ensures
        r == forall|x: int, y: int| #[trigger]
            area.has(x, y) ==> on_canvas(canvas, count as int, x, y),
{
    if area.width == 0 || area.height == 0 {
        return true;
    }
    let far_x: u16 = area.x + (area.width - 1);
    let far_y: u16 = area.y + (area.height - 1);
    let near = has_cell(canvas, count, area.x, area.y);
    let far = has_cell(canvas, count, far_x, far_y);
    assert(area.has(area.x as int, area.y as int));
    assert(area.has(far_x as int, far_y as int));
    if near && far {
        assert forall|x: int, y: int| #[trigger] area.has(x, y) implies on_canvas(
            canvas,
            count as int,
            x,
            y,
        ) by {
            lemma_earlier_place(canvas, count as int, x, y, far_x as int, far_y as int);
        }
    }
    near && far
}

/// The cells of a canvas are those that the canvas has.
pub(crate) proof fn lemma_lands(
    cells: Cells,
    canvas: Rect,
    count: int,
    rows: Seq<Seq<InkModel>>,
    scroll: u16,
    area: Rect,
)
    requires
        is_canvas(cells, canvas, count),
    ensures
        lands(cells, rows, scroll, area) == lands_on(canvas, count, rows, scroll, area),
{
    assert forall|i: int| #[trigger] stray(rows, scroll, area, i) implies cells.dom().contains(
        (trial_x(rows, area, i), trial_y(rows, area, i)),
    ) == on_canvas(canvas, count, trial_x(rows, area, i), trial_y(rows, area, i)) by {}
}

/// Calls `Span::styled_graphemes`, and `Span::width` for each symbol that it gives: their widths.
#[verifier::external_body]
fn widths_of(text: &String) -> (r: Vec<usize>)
    ensures
        r@ == symbol_widths(text@),
{
    let span = Span::raw(text);
    span.styled_graphemes(Style::new()).map(|g| Span::raw(g.symbol).width()).collect()
}

/// Calls `Line::width`, for a line of this text: its width.
#[verifier::external_body]
fn width_of_title(title: &String) -> (r: usize)
    ensures
        r == title_width(title@),
{
    Line::from(title.as_str()).width()
}

/// The title can be laid out on the border of a box in the area.
pub fn check_title(title: &String, area: Rect) -> (r: bool)
    ensures
        r == title_fits(title@, area),
{
    area.width <= 2 || area.height == 0 || check_title_width(width_of_title(title))
}

/// A title of this width can be laid out.
pub fn check_title_width(width: usize) -> (r: bool)
    ensures
        r == has_a_column_left(width),
{
    width % COLUMN_RANGE != COLUMN_RANGE - 1
}

/// The columns that the widest of the widths counts for.
pub fn widest_width(widths: &Vec<usize>, limit: u16) -> (r: u16)
    ensures
        r == widest_symbol(widths@, limit as int),
{
    let mut widest: u16 = 0;
    for i in 0..widths.len()
        invariant
            widest == widest_symbol(widths@.take(i as int), limit as int),
    {
        assert(widths@.take(i + 1).drop_last() =~= widths@.take(i as int));
        let width: u16 = (widths[i] % COLUMN_RANGE) as u16;
        if width <= limit && width > widest {
            widest = width;
        }
    }
    assert(widths@.take(widths.len() as int) =~= widths@);
    widest
}

/// The columns that the widths count for, or the range of columns where that is less.
pub fn columns_of(widths: &Vec<usize>, limit: u16) -> (r: usize)
    ensures
        r == seqs::least(
            columns(widths@, widths.len() as int, limit as int),
            COLUMN_RANGE as int,
        ),
{
    let mut total: usize = 0;
    for i in 0..widths.len()
        invariant
            total == seqs::least(columns(widths@, i as int, limit as int), COLUMN_RANGE as int),
    {
        let width: usize = widths[i] % COLUMN_RANGE;
        if width <= limit as usize {
            total = if total + width < COLUMN_RANGE {
                total + width
            } else {
                COLUMN_RANGE
            };
        }
    }
    total
}

/// No symbol hides its width.
pub fn check_widths(widths: &Vec<usize>) -> (r: bool)
    ensures
        r == keeps_widths(widths@),
{
    for i in 0..widths.len()
        invariant
            forall|j: int| 0 <= j < i ==> !hides(#[trigger] widths@[j]),
    {
        if widths[i] > 0 && widths[i] % COLUMN_RANGE == 0 {
            assert(hides(widths@[i as int]));
            return false;
        }
    }
    true
}

/// Every symbol has a width in sixteen bits.
pub fn check_all_wide(widths: &Vec<usize>) -> (r: bool)
    ensures
        r == all_wide(widths@),
{
    for i in 0..widths.len()
        invariant
            forall|j: int|
                0 <= j < i ==> #[trigger] widths@[j] as int % COLUMN_RANGE as int > 0,
    {
        if widths[i] % COLUMN_RANGE == 0 {
            assert(!(widths@[i as int] as int % COLUMN_RANGE as int > 0));
            return false;
        }
    }
    true
}

/// A row of symbols of these widths can be wrapped at this width.
pub fn check_row(widths: &Vec<usize>, width: u16) -> (r: bool)
    ensures
        r == row_fits(widths@, width),
{
    let total: usize = columns_of(widths, width);
    let hidden: usize = if check_widths(widths) {
        0
    } else {
        1
    };
    if total + hidden < COLUMN_RANGE {
        return true;
    }
    let left: u64 = if check_all_wide(widths) {
        1
    } else {
        0
    };
    width as u64 + 3 * (widest_width(widths, width) as u64) <= COLUMN_RANGE as u64 + left
}

/// More symbols do not count for less.
proof fn lemma_columns_grow(widths: Seq<usize>, a: int, b: int, limit: int)
    requires
        0 <= a <= b,
    ensures
        columns(widths, a, limit) <= columns(widths, b, limit),
    decreases b,
{
    if a < b {
        lemma_columns_grow(widths, a, b - 1, limit);
    }
}

/// Symbols of these widths can be cut off at this width.
pub fn check_cut(widths: &Vec<usize>, width: u16) -> (r: bool)
    ensures
        r == can_cut(widths@, width),
{
    let mut total: usize = 0;
    for i in 0..widths.len()
        invariant
            total == columns(widths@, i as int, width as int),
            total <= width,
            forall|k: int|
                0 <= k < i ==> #[trigger] columns(widths@, k, width as int) + counted(
                    widths@[k],
                    width as int,
                ) < COLUMN_RANGE,
    {
        let this: usize = widths[i] % COLUMN_RANGE;
        if this <= width as usize {
            if total + this >= COLUMN_RANGE {
                assert(columns(widths@, i as int, width as int) <= width);
                return false;
            }
            total = total + this;
            if total > width as usize {
                assert forall|k: int|
                    0 <= k < widths@.len() && #[trigger] columns(widths@, k, width as int)
                        <= width implies columns(widths@, k, width as int) + counted(
                    widths@[k],
                    width as int,
                ) < COLUMN_RANGE by {
                    assert(total == columns(widths@, i + 1, width as int));
                    if k > i {
                        lemma_columns_grow(widths@, i + 1, k, width as int);
                    }
                }
                return true;
            }
        }
    }
    true
}

/// One of the symbols, cut off at this width, hides its width and starts behind the last column.
pub fn check_overhang(widths: &Vec<usize>, width: u16) -> (r: bool)
    ensures
        r == overhangs(widths@, width),
{
    let mut total: usize = 0;
    for i in 0..widths.len()
        invariant
            total == columns(widths@, i as int, width as int),
            total <= width,
            forall|k: int|
                0 <= k < i && hides(#[trigger] widths@[k]) ==> columns(widths@, k, width as int)
                    != width,
    {
        let this: usize = widths[i] % COLUMN_RANGE;
        if this == 0 && widths[i] > 0 && total == width as usize {
            assert(hides(widths@[i as int]));
            return true;
        }
        if this <= width as usize {
            total = total + this;
            if total > width as usize {
                assert forall|k: int| 0 <= k < widths@.len() && hides(
                    #[trigger] widths@[k],
                ) implies columns(widths@, k, width as int) != width by {
                    assert(total == columns(widths@, i + 1, width as int));
                    if k > i {
                        lemma_columns_grow(widths@, i + 1, k, width as int);
                    }
                }
                return false;
            }
        }
    }
    false
}

/// The widths of the symbols of a line.
pub(crate) fn widths_in(line: &InkLine) -> (r: Vec<usize>)
    ensures
        r@ == line_widths(line@),
{
    let mut widths: Vec<usize> = Vec::new();
    for i in 0..line.pieces.len()
        invariant
            widths@ == line_widths(line@.take(i as int)),
    {
        assert(line@.take(i + 1).drop_last() =~= line@.take(i as int));
        assert(line@.take(i + 1).last().text == line.pieces@[i as int].text@);
        let mut more = widths_of(&line.pieces[i].text);
        widths.append(&mut more);
    }
    assert(line@.take(line.pieces.len() as int) =~= line@);
    widths
}

/// The columns that the widest symbol of the rows counts for.
fn widest_of(rows: &Vec<InkLine>, limit: u16) -> (r: u16)
    ensures
        r == widest_in(seqs::views(rows@), limit as int),
{
    let ghost all = seqs::views(rows@);
    let mut widest: u16 = 0;
    for i in 0..rows.len()
        invariant
            all == seqs::views(rows@),
            widest == widest_in(all.take(i as int), limit as int),
    {
        assert(all.take(i + 1).drop_last() =~= all.take(i as int));
        assert(all.take(i + 1).last() == rows@[i as int]@);
        let widths = widths_in(&rows[i]);
        let width: u16 = widest_width(&widths, limit);
        if width > widest {
            widest = width;
        }
    }
    assert(all.take(rows.len() as int) =~= all);
    widest
}

/// The rows can be wrapped for an area of this width and height, from line `scroll` of the
/// wrapped text on.
pub fn check_wrap(rows: &Vec<InkLine>, scroll: u16, width: u16, height: u16) -> (r: bool)
    ensures
        r == can_wrap(seqs::views(rows@), scroll, width, height),
{
    if rows.len() == 0 || width == 0 || height == 0 {
        return true;
    }
    if scroll > u16::MAX - height {
        return false;
    }
    let reached: usize = height as usize + scroll as usize;
    let shown: usize = if rows.len() < reached {
        rows.len()
    } else {
        reached
    };
    let ghost all = seqs::views(rows@);
    for i in 0..shown
        invariant
            all == seqs::views(rows@),
            shown <= rows.len(),
            shown <= height + scroll,
            rows.len() > 0 && width > 0 && height > 0,
            forall|j: int| 0 <= j < i ==> row_fits(line_widths(#[trigger] all[j]), width),
    {
        assert(all[i as int] == rows@[i as int]@);
        let widths = widths_in(&rows[i]);
        if !check_row(&widths, width) {
            assert(!row_fits(line_widths(all[i as int]), width));
            return false;
        }
    }
    true
}

/// Where text is drawn, its row is in range, and where it leaves the area, it lands on the canvas
/// that has the first `count` cells of its rectangle.
pub(crate) fn strays_land(
    rows: &Vec<InkLine>,
    scroll: u16,
    area: Rect,
    canvas: Rect,
    count: usize,
) -> (r: bool)
    requires
        can_wrap(seqs::views(rows@), scroll, area.width, area.height),
    ensures
        r == (in_rows(seqs::views(rows@), scroll, area) && lands_on(
            canvas,
            count as int,
            seqs::views(rows@),
            scroll,
            area,
        )),
{
    let ghost all = seqs::views(rows@);
    let widest: u16 = widest_of(rows, area.width);
    let wide: u16 = if area.width < u16::MAX - widest {
        area.width + widest
    } else {
        u16::MAX
    };
    let trial_run = try_wrapped("\n", rows, scroll, area.width, area.height, wide);
    let ghost symbols = trial(all, scroll, area);
    if wide == 0 {
        assert(wide * area.height == 0) by (nonlinear_arith)
            requires
                wide == 0,
        ;
        assert(symbols.len() == 0);
        return true;
    }
    let mark = "\n".to_string();
    for i in 0..trial_run.len()
        invariant
            all == seqs::views(rows@),
            wide == trial_width(all, area.width),
            wide > 0,
            mark@ == "\n"@,
            symbols == seqs::views(trial_run@),
            symbols == trial(all, scroll, area),
            forall|j: int|
                0 <= j < i && #[trigger] drawn(all, scroll, area, j) ==> trial_y(all, area, j)
                    + scroll <= u16::MAX,
            forall|j: int|
                0 <= j < i && #[trigger] stray(all, scroll, area, j) ==> on_canvas(
                    canvas,
                    count as int,
                    trial_x(all, area, j),
                    trial_y(all, area, j),
                ),
    {
        let column: usize = i % (wide as usize);
        let row: usize = i / (wide as usize);
        assert(symbols[i as int] == trial_run@[i as int]@);
        if trial_run[i] != mark {
            assert(drawn(all, scroll, area, i as int));
            if row > u16::MAX as usize || row + area.y as usize + scroll as usize
                > u16::MAX as usize {
                return false;
            }
            if column >= area.width as usize {
                assert(stray(all, scroll, area, i as int));
                if column > (u16::MAX - area.x) as usize {
                    return false;
                }
                if !has_cell(canvas, count, area.x + column as u16, area.y + row as u16) {
                    return false;
                }
            }
        }
    }
    true
}

/// The line ends in the area, or on a cell of the canvas that has the first `count` cells of its
/// rectangle; its symbols are of these widths.
pub fn overhang_lands(
    widths: &Vec<usize>,
    area: Rect,
    canvas: Rect,
    count: usize,
) -> (r: bool)
    requires
        area.in_range(),
    ensures
        r == (area.width > 0 && area.height > 0 && overhangs(widths@, area.width) ==> on_canvas(
            canvas,
            count as int,
            area.x + area.width,
            area.y as int,
        )),
{
    if area.width == 0 || area.height == 0 || !check_overhang(widths, area.width) {
        return true;
    }
    has_cell(canvas, count, area.x + area.width, area.y)
}

/// Calls `Layout::split` for a part of at least one row above a part of one row: the two parts
/// share the area, and the upper one has the first claim on a row.
#[verifier::external_body]
pub(crate) fn split_rows(area: Rect) -> (r: (Rect, Rect))
    requires
        area.in_range(),
    ensures
        r == split_model(area),
{
    let whole = layout::Rect::new(area.x, area.y, area.width, area.height);
    let parts = Layout::vertical([Constraint::Min(1), Constraint::Length(1)]).split(whole);
    (
        Rect { x: parts[0].x, y: parts[0].y, width: parts[0].width, height: parts[0].height },
        Rect { x: parts[1].x, y: parts[1].y, width: parts[1].width, height: parts[1].height },
    )
}

/// Calls `Widget::render` for a `Paragraph` that wraps and is scrolled down, on a `Buffer` whose
/// cells all show `mark`: the symbols of the buffer afterwards, which are a function of the
/// arguments, row by row. The rows are laid out for a surface of `width` and `height`; no symbol
/// starts further right than that width and the width of a symbol, nor in the last column of
/// all.
#[verifier::external_body]
pub(crate) fn try_wrapped(
    mark: &'static str,
    rows: &Vec<InkLine>,
    scroll: u16,
    width: u16,
    height: u16,
    surface_width: u16,
) -> (r: Vec<String>)
    requires
        can_wrap(seqs::views(rows@), scroll, width, height),
        surface_width >= trial_width(seqs::views(rows@), width),
    ensures
        seqs::views(r@) == trial_symbols(
            mark@,
            seqs::views(rows@),
            scroll,
            width,
            height,
            surface_width,
        ),
        r.len() == surface_width * height,
{
    let lines = rows.iter().map(|row| Line::from_iter(row.pieces.iter().map(|ink| Span::styled(
        &ink.text,
        Style { fg: ink.color.parse().ok(), ..Style::new() }
            .add_modifier(Modifier::from_bits_truncate(ink.modifiers)),
    ))));
    let surface = layout::Rect::new(0, 0, surface_width, height);
    let mut buffer = Buffer::filled(surface, Cell::new(mark));
    Paragraph::new(lines.collect::<Vec<Line>>()).wrap(Wrap { trim: false }).scroll(
        (scroll, 0),
    ).render(layout::Rect { width, ..surface }, &mut buffer);
    buffer.content.iter().map(|cell| cell.symbol().to_string()).collect()
}

/// Calls `Frame::render_widget` with a `Paragraph` that wraps and is scrolled down: draws the
/// rows in the area. What that shows is a function of what was there and of the arguments; the
/// cells stay the same ones, and those outside the area show the same where the text stays in it.
#[verifier::external_body]
pub(crate) fn paint_wrapped(frame: &mut Frame, rows: &Vec<InkLine>, scroll: u16, area: Rect)
    requires
        covers(frame_cells(*old(frame)), area),
        can_wrap(seqs::views(rows@), scroll, area.width, area.height),
        area.in_range(),
        in_rows(seqs::views(rows@), scroll, area),
        lands(frame_cells(*old(frame)), seqs::views(rows@), scroll, area),
    ensures
        frame_area(*final(frame)) == frame_area(*old(frame)),
        frame_cells(*final(frame)) == wrapped_cells(
            frame_cells(*old(frame)),
            seqs::views(rows@),
            scroll,
            area,
        ),
        frame_cells(*final(frame)).dom() == frame_cells(*old(frame)).dom(),
        same_but_for_strays(
            frame_cells(*old(frame)),
            frame_cells(*final(frame)),
            area,
            seqs::views(rows@),
            scroll,
            area,
        ),
{
    let lines = rows.iter().map(|row| Line::from_iter(row.pieces.iter().map(|ink| Span::styled(
        &ink.text,
        Style { fg: ink.color.parse().ok(), ..Style::new() }
            .add_modifier(Modifier::from_bits_truncate(ink.modifiers)),
    ))));
    let paragraph = Paragraph::new(lines.collect::<Vec<Line>>());
    frame.render_widget(
        paragraph.wrap(Wrap { trim: false }).scroll((scroll, 0)),
        layout::Rect::new(area.x, area.y, area.width, area.height),
    );
}

/// Calls `Frame::render_widget` with a `Paragraph` of one line: draws it in the area. What that
/// shows is a function of what was there and of the arguments; the cells stay the same ones, and
/// those outside the area show the same, but for the one to the right of it where the line ends
/// on that.
#[verifier::external_body]
pub(crate) fn paint_line(frame: &mut Frame, line: &InkLine, area: Rect)
    requires
        covers(frame_cells(*old(frame)), area),
        line_fits(line@, area),
        area.in_range(),
        line_lands(frame_cells(*old(frame)), line@, area),
    ensures
        frame_area(*final(frame)) == frame_area(*old(frame)),
        frame_cells(*final(frame)) == line_cells(frame_cells(*old(frame)), line@, area),
        frame_cells(*final(frame)).dom() == frame_cells(*old(frame)).dom(),
        same_but_for_overhang(
            frame_cells(*old(frame)),
            frame_cells(*final(frame)),
            line@,
            area,
        ),
{
    let spans = line.pieces.iter().map(|ink| Span::styled(
        &ink.text,
        Style { fg: ink.color.parse().ok(), ..Style::new() }
            .add_modifier(Modifier::from_bits_truncate(ink.modifiers)),
    ));
    frame.render_widget(
        Paragraph::new(Line::from_iter(spans)),
        layout::Rect::new(area.x, area.y, area.width, area.height),
    );
}

/// Calls `Frame::render_widget` with a `Paragraph` that wraps inside a bordered `Block`: draws
/// the box with its title in the area, and the rows in the box. What that shows is a function of
/// what was there and of the arguments; the cells stay the same ones, and those outside the area
/// show the same where the text stays in the box.
#[verifier::external_body]
pub(crate) fn paint_boxed(frame: &mut Frame, title: &String, rows: &Vec<InkLine>, area: Rect)
    requires
        covers(frame_cells(*old(frame)), area),
        can_wrap(seqs::views(rows@), 0, inner_model(area).width, inner_model(area).height),
        area.in_range(),
        title_fits(title@, area),
        lands(frame_cells(*old(frame)), seqs::views(rows@), 0, inner_model(area)),
    ensures
        frame_area(*final(frame)) == frame_area(*old(frame)),
        frame_cells(*final(frame)) == boxed_cells(
            frame_cells(*old(frame)),
            title@,
            seqs::views(rows@),
            area,
        ),
        frame_cells(*final(frame)).dom() == frame_cells(*old(frame)).dom(),
        same_but_for_strays(
            frame_cells(*old(frame)),
            frame_cells(*final(frame)),
            area,
            seqs::views(rows@),
            0,
            inner_model(area),
        ),
{
    let lines = rows.iter().map(|row| Line::from_iter(row.pieces.iter().map(|ink| Span::styled(
        &ink.text,
        Style { fg: ink.color.parse().ok(), ..Style::new() }
            .add_modifier(Modifier::from_bits_truncate(ink.modifiers)),
    ))));
    let paragraph = Paragraph::new(lines.collect::<Vec<Line>>());
    frame.render_widget(
        paragraph.block(Block::bordered().title(title.as_str())).wrap(Wrap { trim: false }),
        layout::Rect::new(area.x, area.y, area.width, area.height),
    );
}

/// Calls `Frame::render_widget` with `Clear`: the cells of the area are blank afterwards, and
/// the others as they were.
#[verifier::external_body]
pub(crate) fn paint_blank(frame: &mut Frame, area: Rect)
    requires
        covers(frame_cells(*old(frame)), area),
        area.in_range(),
    ensures
        frame_area(*final(frame)) == frame_area(*old(frame)),
        frame_cells(*final(frame)) == cleared(frame_cells(*old(frame)), area),
{
    frame.render_widget(
        Clear,
        layout::Rect::new(area.x, area.y, area.width, area.height),
    );
}

} // verus!
