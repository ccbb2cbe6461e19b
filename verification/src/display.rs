//! Log lines: their text, colours and emphasis.
use vstd::prelude::*;

use crate::seqs;
use crate::text;
use crate::text::{code_text, joined, padded};

verus! {

/// The colours that the program uses.
#[derive(Clone, Copy, Debug, PartialEq, Eq, Structural)]
pub enum Color {
    Cyan,
    Yellow,
    Green,
    Magenta,
    Blue,
    White,
    LightCyan,
    LightYellow,
    LightGreen,
    Red,
}

/// Emphasis on top of a colour.
#[derive(Clone, Copy, Debug, PartialEq, Eq, Structural)]
pub struct Modifier {
    pub bold: bool,
    pub dim: bool,
}

/// How a piece of text is shown. Without a colour, it keeps the one of the terminal.
#[derive(Clone, Copy, Debug, PartialEq, Eq)]
pub struct Style {
    pub fg: Option<Color>,
    pub modifier: Modifier,
}

/// A piece of text in one style.
#[derive(Debug)]
pub struct Span {
    pub content: String,
    pub style: Style,
}

/// One line of styled text.
#[derive(Debug)]
pub struct Line {
    pub spans: Vec<Span>,
}

/// The model of a [`Span`].
pub struct SpanModel {
    pub content: Seq<char>,
    pub style: Style,
}

impl View for Span {
    type V = SpanModel;

    open spec fn view(&self) -> SpanModel {
        SpanModel { content: self.content@, style: self.style }
    }
}

impl View for Line {
    type V = Seq<SpanModel>;

    open spec fn view(&self) -> Seq<SpanModel> {
        seqs::views(self.spans@)
    }
}

impl Clone for Span {
    fn clone(&self) -> (r: Self)
        ensures
            r@ == self@,
    {
        Span { content: self.content.clone(), style: self.style }
    }
}

impl Clone for Line {
    fn clone(&self) -> (r: Self)
        ensures
            r@ == self@,
    {
        let mut spans: Vec<Span> = Vec::new();
        for i in 0..self.spans.len()
            invariant
                spans.len() == i,
                forall|j: int| 0 <= j < i ==> (#[trigger] spans@[j])@ == self.spans@[j]@,
        {
            spans.push(self.spans[i].clone());
        }
        assert(seqs::views(spans@) =~= seqs::views(self.spans@));
        Line { spans }
    }
}

impl Style {
    /// No colour, no emphasis.
    pub open spec fn plain_model() -> Style {
        Style { fg: None, modifier: Modifier { bold: false, dim: false } }
    }

    /// In colour `c`.
    pub open spec fn colored_model(c: Color) -> Style {
        Style { fg: Some(c), ..Style::plain_model() }
    }

    /// The same, in bold.
    pub open spec fn bold_model(self) -> Style {
        Style { modifier: Modifier { bold: true, ..self.modifier }, ..self }
    }

    /// The same, dimmed.
    pub open spec fn dim_model(self) -> Style {
        Style { modifier: Modifier { dim: true, ..self.modifier }, ..self }
    }

    /// No colour, no emphasis.
    pub fn new() -> (r: Style)
        ensures
            r == Style::plain_model(),
    {
        Style { fg: None, modifier: Modifier { bold: false, dim: false } }
    }

    /// The same style in colour `c`.
    pub fn fg(self, c: Color) -> (r: Style)
        ensures
            r == (Style { fg: Some(c), ..self }),
    {
        Style { fg: Some(c), modifier: self.modifier }
    }

    /// The same style in bold.
    pub fn bold(self) -> (r: Style)
        ensures
            r == self.bold_model(),
    {
        Style { fg: self.fg, modifier: Modifier { bold: true, dim: self.modifier.dim } }
    }

    /// The same style, dimmed.
    pub fn dim(self) -> (r: Style)
        ensures
            r == self.dim_model(),
    {
        Style { fg: self.fg, modifier: Modifier { bold: self.modifier.bold, dim: true } }
    }
}

/// The colours that scripts take, in the order of their positions.
pub const RATATUI_COLORS: [Color; 9] = [
    Color::Cyan,
    Color::Yellow,
    Color::Green,
    Color::Magenta,
    Color::Blue,
    Color::White,
    Color::LightCyan,
    Color::LightYellow,
    Color::LightGreen,
];

/// The colour of position `index`: the palette, over and over.
pub open spec fn palette(index: int) -> Color {
    RATATUI_COLORS@[index % 9]
}

/// The colour of the script at position `index`; the palette repeats.
pub fn ratatui_color(index: usize) -> (r: Color)
    ensures
        r == palette(index as int),
{
    RATATUI_COLORS[index % RATATUI_COLORS.len()]
}

/// The palette starts over after its last colour.
pub proof fn palette_repeats(index: nat, rounds: nat)
    ensures
        palette(index as int) == palette((index + 9 * rounds) as int),
{
    assert(index as int % 9 == (index + 9 * rounds) % 9);
}

/// Positions closer together than the palette is long have different colours.
pub proof fn neighbours_differ(i: nat, j: nat)
    requires
        i < j,
        j < i + 9,
    ensures
        palette(i as int) != palette(j as int),
{
    assert(i as int % 9 != j as int % 9);
}

/// A log line: the script's name in its column and colour, a separator, then `content`.
pub open spec fn log_line_model(
    name: Seq<char>,
    color: Color,
    name_width: nat,
    content: SpanModel,
) -> Seq<SpanModel> {
    seq![
        SpanModel { content: text::pad_left(name, name_width), style: Style::colored_model(color) },
        SpanModel { content: " | "@, style: Style::plain_model().dim_model() },
        content,
    ]
}

/// A line that a script wrote to its output.
pub open spec fn stdout_line_model(
    name: Seq<char>,
    color: Color,
    line: Seq<char>,
    name_width: nat,
) -> Seq<SpanModel> {
    log_line_model(
        name,
        color,
        name_width,
        SpanModel { content: line, style: Style::plain_model() },
    )
}

/// A line that a script wrote to its error output, in red.
pub open spec fn stderr_line_model(
    name: Seq<char>,
    color: Color,
    line: Seq<char>,
    name_width: nat,
) -> Seq<SpanModel> {
    log_line_model(
        name,
        color,
        name_width,
        SpanModel { content: line, style: Style::colored_model(Color::Red) },
    )
}

/// How a script ended, in words.
pub open spec fn exit_message(code: Option<i32>) -> Seq<char> {
    match code {
        Some(c) => "exited with code "@ + text::decimal(c as int),
        None => "exited with signal"@,
    }
}

/// The line that says how a script ended, in bold.
pub open spec fn exit_line_model(
    name: Seq<char>,
    color: Color,
    code: Option<i32>,
    name_width: nat,
) -> Seq<SpanModel> {
    log_line_model(
        name,
        color,
        name_width,
        SpanModel {
            content: exit_message(code),
            style: Style::plain_model().bold_model(),
        },
    )
}

/// The line that says that a script starts again, in bold.
pub open spec fn restart_line_model(
    name: Seq<char>,
    color: Color,
    name_width: nat,
) -> Seq<SpanModel> {
    log_line_model(
        name,
        color,
        name_width,
        SpanModel { content: "restarting..."@, style: Style::plain_model().bold_model() },
    )
}

/// The line that says that a new configuration is in effect.
pub open spec fn config_reload_line_model() -> Seq<SpanModel> {
    seq![
        SpanModel {
            content: "--- config reloaded ---"@,
            style: Style::plain_model().bold_model(),
        },
    ]
}

/// The line that says why a configuration was refused, in bold red.
pub open spec fn config_error_line_model(msg: Seq<char>) -> Seq<SpanModel> {
    seq![
        SpanModel {
            content: "config error: "@ + msg,
            style: Style::colored_model(Color::Red).bold_model(),
        },
    ]
}

fn styled_log_line(name: &str, color: Color, name_width: usize, content: Span) -> (r: Line)
    ensures
        r@ == log_line_model(name@, color, name_width as nat, content@),
{
    let ghost c = content@;
    let mut spans: Vec<Span> = Vec::new();
    spans.push(Span { content: padded(name, name_width), style: Style::new().fg(color) });
    spans.push(Span { content: " | ".to_string(), style: Style::new().dim() });
    spans.push(content);
    assert(seqs::views(spans@) =~= log_line_model(name@, color, name_width as nat, c));
    Line { spans }
}

/// The log line for a line of output.
pub fn styled_stdout_line(name: &str, color: Color, line: &str, name_width: usize) -> (r: Line)
    ensures
        r@ == stdout_line_model(name@, color, line@, name_width as nat),
{
    styled_log_line(
        name,
        color,
        name_width,
        Span { content: line.to_string(), style: Style::new() },
    )
}

/// The log line for a line of error output.
pub fn styled_stderr_line(name: &str, color: Color, line: &str, name_width: usize) -> (r: Line)
    ensures
        r@ == stderr_line_model(name@, color, line@, name_width as nat),
{
    styled_log_line(
        name,
        color,
        name_width,
        Span { content: line.to_string(), style: Style::new().fg(Color::Red) },
    )
}

/// The log line for the end of a script.
pub fn styled_exit_line(
    name: &str,
    color: Color,
    code: Option<i32>,
    name_width: usize,
) -> (r: Line)
    ensures
        r@ == exit_line_model(name@, color, code, name_width as nat),
{
    let msg = match code {
        Some(c) => joined("exited with code ", code_text(c).as_str()),
        None => "exited with signal".to_string(),
    };
    styled_log_line(
        name,
        color,
        name_width,
        Span { content: msg, style: Style::new().bold() },
    )
}

/// The log line for the restart of a script.
pub fn styled_restart_line(name: &str, color: Color, name_width: usize) -> (r: Line)
    ensures
        r@ == restart_line_model(name@, color, name_width as nat),
{
    styled_log_line(
        name,
        color,
        name_width,
        Span {
            content: "restarting...".to_string(),
            style: Style::new().bold(),
        },
    )
}

/// The log line for a new configuration.
pub fn styled_config_reload_line() -> (r: Line)
    ensures
        r@ == config_reload_line_model(),
{
    let mut spans: Vec<Span> = Vec::new();
    spans.push(
        Span {
            content: "--- config reloaded ---".to_string(),
            style: Style::new().bold(),
        },
    );
    assert(seqs::views(spans@) =~= config_reload_line_model());
    Line { spans }
}

/// The log line for a configuration that was refused.
pub fn styled_config_error_line(msg: &str) -> (r: Line)
    ensures
        r@ == config_error_line_model(msg@),
{
    let mut spans: Vec<Span> = Vec::new();
    spans.push(
        Span {
            content: joined("config error: ", msg),
            style: Style::new().fg(Color::Red).bold(),
        },
    );
    assert(seqs::views(spans@) =~= config_error_line_model(msg@));
    Line { spans }
}

/// Names that fit the column put every separator in the same place.
pub proof fn separators_line_up(
    a: Seq<char>,
    b: Seq<char>,
    color_a: Color,
    color_b: Color,
    width: nat,
    content_a: SpanModel,
    content_b: SpanModel,
)
    requires
        a.len() <= width,
        b.len() <= width,
    ensures
        log_line_model(a, color_a, width, content_a)[0].content.len() == width,
        log_line_model(b, color_b, width, content_b)[0].content.len() == width,
        log_line_model(a, color_a, width, content_a)[1] == log_line_model(
            b,
            color_b,
            width,
            content_b,
        )[1],
{
}

} // verus!
