use mux::display::{
    ratatui_color, styled_config_error_line, styled_config_reload_line, styled_exit_line,
    styled_restart_line, styled_stderr_line, styled_stdout_line, Color, Style, RATATUI_COLORS,
};
use mux::text::{byte_count, code_text, count_text, joined, padded};

#[test]
fn styled_stdout_line_has_colored_name_and_content() {
    let line = styled_stdout_line("meow", Color::Cyan, "hello kitty", 6);
    assert_eq!(line.spans.len(), 3);
    assert!(line.spans[0].content.contains("meow"));
    assert_eq!(line.spans[0].style.fg, Some(Color::Cyan));
    assert_eq!(line.spans[2].content, "hello kitty");
}

#[test]
fn styled_stderr_line_has_red_content() {
    let line = styled_stderr_line("purr", Color::Yellow, "cat error", 6);
    assert_eq!(line.spans[2].style.fg, Some(Color::Red));
    assert_eq!(line.spans[2].content, "cat error");
}

#[test]
fn styled_exit_line_shows_code() {
    let line = styled_exit_line("nyan", Color::Green, Some(0), 6);
    assert_eq!(line.spans[2].content, "exited with code 0");
}

#[test]
fn styled_exit_line_shows_signal() {
    let line = styled_exit_line("nyan", Color::Green, None, 6);
    assert_eq!(line.spans[2].content, "exited with signal");
}

#[test]
fn ratatui_color_wraps_around() {
    assert_eq!(ratatui_color(0), ratatui_color(RATATUI_COLORS.len()));
}

#[test]
fn color_for_index_returns_cyan_for_first_cat() {
    assert_eq!(ratatui_color(0), Color::Cyan);
}

#[test]
fn color_for_index_wraps_around_palette() {
    let palette_len = RATATUI_COLORS.len();
    assert_eq!(ratatui_color(0), ratatui_color(palette_len));
    assert_eq!(ratatui_color(1), ratatui_color(palette_len + 1));
}

#[test]
fn color_palette_has_expected_entries() {
    assert_eq!(RATATUI_COLORS.len(), 9);
}

#[test]
fn nine_neighbours_have_nine_colors() {
    for i in 3..12 {
        for j in 3..12 {
            assert_eq!(ratatui_color(i) == ratatui_color(j), i == j);
        }
    }
    assert_eq!(ratatui_color(8), Color::LightGreen);
    assert_eq!(ratatui_color(9), Color::Cyan);
}

#[test]
fn the_parts_of_a_log_line() {
    let line = styled_stdout_line("meow", Color::Blue, "x", 6);
    assert_eq!(line.spans[0].content, "  meow");
    assert_eq!(line.spans[0].style, Style::new().fg(Color::Blue));
    assert_eq!(line.spans[1].content, " | ");
    assert_eq!(line.spans[1].style, Style::new().dim());
    assert_eq!(line.spans[2].style, Style::new());
    let long = styled_stdout_line("whiskers", Color::Blue, "x", 3);
    assert_eq!(long.spans[0].content, "whiskers");
}

#[test]
fn padding_counts_characters() {
    assert_eq!(padded("日本", 4), "  日本");
    assert_eq!(padded("", 2), "  ");
    assert_eq!(padded("abc", 0), "abc");
    assert_eq!(byte_count("日本"), 6);
    assert_eq!(joined("ab", "cd"), "abcd");
}

#[test]
fn numbers_in_decimal() {
    assert_eq!(count_text(0), "0");
    assert_eq!(count_text(1203), "1203");
    assert_eq!(count_text(usize::MAX), usize::MAX.to_string());
    assert_eq!(code_text(-1), "-1");
    assert_eq!(code_text(i32::MIN), i32::MIN.to_string());
    assert_eq!(code_text(137), "137");
}

#[test]
fn emphasis_of_notices() {
    let exit = styled_exit_line("nyan", Color::Green, Some(-9), 4);
    assert_eq!(exit.spans[2].content, "exited with code -9");
    assert_eq!(exit.spans[2].style, Style::new().bold());
    let restart = styled_restart_line("nyan", Color::Green, 6);
    assert_eq!(restart.spans[0].content, "  nyan");
    assert_eq!(restart.spans[2].content, "restarting...");
    assert_eq!(restart.spans[2].style, Style::new().bold());
    let reload = styled_config_reload_line();
    assert_eq!(reload.spans.len(), 1);
    assert_eq!(reload.spans[0].content, "--- config reloaded ---");
    assert_eq!(reload.spans[0].style, Style::new().bold());
    let error = styled_config_error_line("no");
    assert_eq!(error.spans.len(), 1);
    assert_eq!(error.spans[0].content, "config error: no");
    assert_eq!(error.spans[0].style, Style::new().fg(Color::Red).bold());
}

#[test]
fn a_copy_of_a_line_shows_the_same() {
    let line = styled_stderr_line("purr", Color::Yellow, "cat error", 6);
    let copy = line.clone();
    assert_eq!(copy.spans.len(), line.spans.len());
    for (a, b) in copy.spans.iter().zip(line.spans.iter()) {
        assert_eq!(a.content, b.content);
        assert_eq!(a.style, b.style);
    }
}
