//! What holds of numbers, columns and lines of the log.
use vstd::prelude::*;

use crate::display;
use crate::display::{Color, SpanModel, Style};
use crate::script;
use crate::script::ScriptModel;
use crate::seqs;
use crate::text;

verus! {

// ---------------------------------------------------------------------------
// Numbers and columns
// ---------------------------------------------------------------------------

/// The number that decimal digits stand for.
pub open spec fn value(s: Seq<char>) -> int
    decreases s.len(),
{
    if s.len() == 0 {
        0
    } else {
        10 * value(s.drop_last()) + (s.last() as u32 - 48)
    }
}

/// The text is a number as people write it: digits, and no zero in front of others.
pub open spec fn well_written(s: Seq<char>) -> bool {
    &&& s.len() > 0
    &&& forall|i: int| 0 <= i < s.len() ==> 48 <= #[trigger] s[i] as u32 <= 57
    &&& s.len() > 1 ==> s[0] != '0'
}

/// The digits of a number are well written and stand for it.
pub proof fn digits_are_read_back(n: nat)
    ensures
        well_written(text::digits(n)),
        value(text::digits(n)) == n,
        n > 0 ==> text::digits(n)[0] != '0',
    decreases n,
{
    let s = text::digits(n);
    if n < 10 {
        assert(s.drop_last() =~= Seq::empty());
        assert(s.last() as u32 == 48 + n);
        assert('0' as u32 == 48);
        assert(value(s.drop_last()) == 0);
    } else {
        digits_are_read_back(n / 10);
        let rest = text::digits(n / 10);
        assert(s.drop_last() =~= rest);
        assert(s.last() as u32 == 48 + n % 10);
        assert forall|i: int| 0 <= i < s.len() implies 48 <= #[trigger] s[i] as u32 <= 57 by {
            if i < rest.len() {
                assert(s[i] == rest[i]);
            }
        }
        assert(s[0] == rest[0]);
    }
}

/// A number in decimal stands for itself: its digits, after a minus sign where it is negative.
pub proof fn a_number_is_read_back(n: int)
    ensures
        n >= 0 ==> well_written(text::decimal(n)) && value(text::decimal(n)) == n,
        n < 0 ==> {
            let s = text::decimal(n);
            &&& s.len() > 1
            &&& s[0] == '-'
            &&& well_written(s.drop_first())
            &&& value(s.drop_first()) == -n
        },
{
    if n < 0 {
        digits_are_read_back((-n) as nat);
        assert(text::decimal(n).drop_first() =~= text::digits((-n) as nat));
    } else {
        digits_are_read_back(n as nat);
    }
}

/// The text ends in `s`, with spaces in front of it that bring it to `width` characters.
pub open spec fn right_aligned(t: Seq<char>, s: Seq<char>, width: nat) -> bool {
    &&& t.len() == seqs::greatest(s.len() as int, width as int)
    &&& t.skip(t.len() - s.len()) == s
    &&& forall|i: int| 0 <= i < t.len() - s.len() ==> #[trigger] t[i] == ' '
}

/// Padding aligns a text on the right.
pub proof fn padding_aligns(s: Seq<char>, width: nat)
    ensures
        right_aligned(text::pad_left(s, width), s, width),
{
    let t = text::pad_left(s, width);
    assert(t.skip(t.len() - s.len()) =~= s);
}

/// The bytes that a character takes.
pub open spec fn bytes_of(c: char) -> nat {
    if (c as u32) < 0x80 {
        1
    } else if (c as u32) < 0x800 {
        2
    } else if (c as u32) < 0x1_0000 {
        3
    } else {
        4
    }
}

/// The length of a text in bytes is that of its characters together.
pub proof fn bytes_add_up(s: Seq<char>)
    ensures
        s.len() == 0 ==> text::byte_len(s) == 0,
        s.len() > 0 ==> text::byte_len(s) == bytes_of(s[0]) + text::byte_len(s.drop_first()),
{
    if s.len() > 0 {
        vstd::utf8::char_is_scalar(s[0]);
        assert(vstd::utf8::encode_scalar(s[0] as u32).len() == bytes_of(s[0]));
    }
}

/// The column of names is as wide as the longest of them, and one wide where there is none.
pub proof fn the_column_fits_the_longest_name(scripts: Seq<ScriptModel>)
    ensures
        forall|i: int|
            0 <= i < scripts.len() ==> text::byte_len((#[trigger] scripts[i]).name)
                <= script::name_column(scripts),
        scripts.len() > 0 ==> exists|i: int|
            0 <= i < scripts.len() && text::byte_len((#[trigger] scripts[i]).name)
                == script::name_column(scripts),
        scripts.len() == 0 ==> script::name_column(scripts) == 1,
{
    lemma_widest_is_one(scripts);
}

proof fn lemma_widest_is_one(scripts: Seq<ScriptModel>)
    ensures
        forall|i: int|
            0 <= i < scripts.len() ==> text::byte_len((#[trigger] scripts[i]).name)
                <= script::widest_name(scripts),
        scripts.len() > 0 ==> exists|i: int|
            0 <= i < scripts.len() && text::byte_len((#[trigger] scripts[i]).name)
                == script::widest_name(scripts),
    decreases scripts.len(),
{
    if scripts.len() > 0 {
        let rest = scripts.drop_last();
        let last = scripts.len() - 1;
        lemma_widest_is_one(rest);
        assert forall|i: int| 0 <= i < scripts.len() implies text::byte_len(
            (#[trigger] scripts[i]).name,
        ) <= script::widest_name(scripts) by {
            if i < rest.len() {
                assert(rest[i] == scripts[i]);
            }
        }
        if script::widest_name(scripts) == text::byte_len(scripts[last].name) {
            assert(text::byte_len(scripts[last].name) == script::widest_name(scripts));
        } else {
            let i = choose|i: int|
                0 <= i < rest.len() && text::byte_len((#[trigger] rest[i]).name)
                    == script::widest_name(rest);
            assert(text::byte_len(scripts[i].name) == script::widest_name(scripts));
        }
    }
}

// ---------------------------------------------------------------------------
// Lines of the log
// ---------------------------------------------------------------------------

/// The style has this colour, and this emphasis.
pub open spec fn has_style(s: Style, fg: Option<Color>, bold: bool, dim: bool) -> bool {
    s.fg == fg && s.modifier.bold == bold && s.modifier.dim == dim
}

/// Emphasis is added to what a style has, and leaves its colour and other emphasis alone.
pub proof fn emphasis_is_added(s: Style, c: Color)
    ensures
        has_style(Style::plain_model(), None, false, false),
        has_style(Style::colored_model(c), Some(c), false, false),
        has_style(s.bold_model(), s.fg, true, s.modifier.dim),
        has_style(s.dim_model(), s.fg, s.modifier.bold, true),
{
}

/// The line is one of three pieces: the name in its colour and column, a bar between spaces,
/// dimmed, and the text in its own style.
pub open spec fn is_log_line(
    line: Seq<SpanModel>,
    name: Seq<char>,
    color: Color,
    width: nat,
    content: Seq<char>,
    fg: Option<Color>,
    bold: bool,
) -> bool {
    &&& line.len() == 3
    &&& right_aligned(line[0].content, name, width)
    &&& has_style(line[0].style, Some(color), false, false)
    &&& line[1].content == seq![' ', '|', ' ']
    &&& has_style(line[1].style, None, false, true)
    &&& line[2].content == content
    &&& has_style(line[2].style, fg, bold, false)
}

/// Output is shown as it was written, without a colour of its own, and error output in red.
pub proof fn only_error_output_is_red(
    name: Seq<char>,
    color: Color,
    line: Seq<char>,
    width: nat,
)
    ensures
        is_log_line(
            display::stdout_line_model(name, color, line, width),
            name,
            color,
            width,
            line,
            None,
            false,
        ),
        is_log_line(
            display::stderr_line_model(name, color, line, width),
            name,
            color,
            width,
            line,
            Some(Color::Red),
            false,
        ),
{
    padding_aligns(name, width);
    reveal_strlit(" | ");
    assert(" | "@ =~= seq![' ', '|', ' ']);
}

/// The text says how a script ended: with this code, or by a signal.
pub open spec fn tells_exit(t: Seq<char>, code: Option<i32>) -> bool {
    match code {
        Some(c) => {
            let head = "exited with code "@;
            &&& t.take(head.len() as int) == head
            &&& t.skip(head.len() as int) == text::decimal(c as int)
            &&& t.len() == head.len() + text::decimal(c as int).len()
        },
        None => t == "exited with signal"@,
    }
}

/// The line on an exit tells how the script ended, in bold.
pub proof fn an_exit_line_tells_the_code(
    name: Seq<char>,
    color: Color,
    code: Option<i32>,
    width: nat,
)
    ensures
        ({
            let line = display::exit_line_model(name, color, code, width);
            &&& is_log_line(line, name, color, width, line[2].content, None, true)
            &&& tells_exit(line[2].content, code)
        }),
{
    padding_aligns(name, width);
    reveal_strlit(" | ");
    assert(" | "@ =~= seq![' ', '|', ' ']);
    let t = display::exit_message(code);
    if let Some(c) = code {
        let head = "exited with code "@;
        assert(t.take(head.len() as int) =~= head);
        assert(t.skip(head.len() as int) =~= text::decimal(c as int));
    }
}

/// Different exit codes give different lines.
pub proof fn exit_lines_tell_codes_apart(
    name: Seq<char>,
    color: Color,
    a: i32,
    b: i32,
    width: nat,
)
    requires
        a != b,
    ensures
        display::exit_line_model(name, color, Some(a), width) != display::exit_line_model(
            name,
            color,
            Some(b),
            width,
        ),
{
    an_exit_line_tells_the_code(name, color, Some(a), width);
    an_exit_line_tells_the_code(name, color, Some(b), width);
    a_number_is_read_back(a as int);
    a_number_is_read_back(b as int);
    if text::decimal(a as int) == text::decimal(b as int) {
        assert(text::decimal(a as int)[0] as u32 >= 48 || a < 0);
        assert('-' as u32 == 45);
        assert((a < 0) == (b < 0));
    }
}

/// The line on a restart says so, in bold.
pub proof fn a_restart_line_says_so(name: Seq<char>, color: Color, width: nat)
    ensures
        is_log_line(
            display::restart_line_model(name, color, width),
            name,
            color,
            width,
            "restarting..."@,
            None,
            true,
        ),
{
    padding_aligns(name, width);
    reveal_strlit(" | ");
    assert(" | "@ =~= seq![' ', '|', ' ']);
}

/// The line is one piece of text, in bold and in this colour.
pub open spec fn is_notice(line: Seq<SpanModel>, content: Seq<char>, fg: Option<Color>) -> bool {
    &&& line.len() == 1
    &&& line[0].content == content
    &&& has_style(line[0].style, fg, true, false)
}

/// The notices on the configuration: in bold, that it was reloaded, and in red why it was not.
pub proof fn notices_say_what_happened(msg: Seq<char>)
    ensures
        is_notice(display::config_reload_line_model(), "--- config reloaded ---"@, None),
        is_notice(
            display::config_error_line_model(msg),
            "config error: "@ + msg,
            Some(Color::Red),
        ),
{
}

/// The colours of the positions, in their order; after the last one they start over.
pub proof fn the_palette_in_order(i: nat)
    ensures
        display::palette(i as int) == (if i % 9 == 0 {
            Color::Cyan
        } else if i % 9 == 1 {
            Color::Yellow
        } else if i % 9 == 2 {
            Color::Green
        } else if i % 9 == 3 {
            Color::Magenta
        } else if i % 9 == 4 {
            Color::Blue
        } else if i % 9 == 5 {
            Color::White
        } else if i % 9 == 6 {
            Color::LightCyan
        } else if i % 9 == 7 {
            Color::LightYellow
        } else {
            Color::LightGreen
        }),
        !(display::palette(i as int) is Red),
{
}

} // verus!
