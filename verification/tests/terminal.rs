use mux::display::{Color, Line, Span, Style};
use mux::screen::{
    canvas_covers, check_all_wide, check_cut, check_overhang, check_row, check_title,
    check_title_width, check_widths, check_wrap, columns_of, overhang_lands, widest_width, Ink,
    InkLine, Rect,
};
use mux::terminal::{
    build_status_spans, centered_rect, dialog_lines, dialog_size, first_line, inner_area,
    render_if_it_fits, render_ui, AppState, DialogState, RunState, ScriptView,
};
use ratatui::backend::TestBackend;
use ratatui::buffer::Buffer;
use ratatui::{Terminal, TerminalOptions, Viewport};

fn raw(content: &str) -> Line {
    Line { spans: vec![Span { content: content.to_string(), style: Style::new() }] }
}

fn text_of(line: &Line) -> String {
    line.spans.iter().map(|s| s.content.as_str()).collect()
}

fn buffer_to_string(buf: &Buffer) -> String {
    let mut s = String::new();
    for y in 0..buf.area.height {
        for x in 0..buf.area.width {
            let cell = &buf[(x, y)];
            s.push_str(cell.symbol());
        }
        s.push('\n');
    }
    s
}

fn rows_of(buf: &Buffer) -> Vec<String> {
    buffer_to_string(buf).lines().map(|l| l.trim_end().to_string()).collect()
}

#[test]
fn status_bar_shows_script_number_name_and_on_when_visible() {
    let run_state = RunState::Running;
    let scripts = vec![ScriptView { name: "whiskers", visible: true, run_state: &run_state }];
    let spans = build_status_spans(&scripts);
    let text: String = spans.iter().map(|s| s.content.as_str()).collect();
    assert!(text.contains("[1:whiskers "));
    assert!(text.contains("ON"));
}

#[test]
fn status_bar_shows_off_when_script_hidden() {
    let run_state = RunState::Running;
    let scripts = vec![ScriptView { name: "paws", visible: false, run_state: &run_state }];
    let spans = build_status_spans(&scripts);
    let text: String = spans.iter().map(|s| s.content.as_str()).collect();
    assert!(text.contains("off"));
    assert!(!text.contains("ON"));
}

#[test]
fn status_bar_shows_exit_code_for_exited_script() {
    let run_state = RunState::Exited(Some(42));
    let scripts = vec![ScriptView { name: "tabby", visible: true, run_state: &run_state }];
    let spans = build_status_spans(&scripts);
    let text: String = spans.iter().map(|s| s.content.as_str()).collect();
    assert!(text.contains("exit:42"));
}

#[test]
fn status_bar_shows_exit_sig_when_no_exit_code() {
    let run_state = RunState::Exited(None);
    let scripts = vec![ScriptView { name: "nyan", visible: true, run_state: &run_state }];
    let spans = build_status_spans(&scripts);
    let text: String = spans.iter().map(|s| s.content.as_str()).collect();
    assert!(text.contains("exit:sig"));
}

#[test]
fn status_bar_shows_restarting_state() {
    let run_state = RunState::Restarting;
    let scripts = vec![ScriptView { name: "mittens", visible: true, run_state: &run_state }];
    let spans = build_status_spans(&scripts);
    let text: String = spans.iter().map(|s| s.content.as_str()).collect();
    assert!(text.contains("restarting"));
}

#[test]
fn status_bar_shows_multiple_scripts() {
    let r1 = RunState::Running;
    let r2 = RunState::Running;
    let scripts = vec![
        ScriptView { name: "meow", visible: true, run_state: &r1 },
        ScriptView { name: "purr", visible: false, run_state: &r2 },
    ];
    let spans = build_status_spans(&scripts);
    let text: String = spans.iter().map(|s| s.content.as_str()).collect();
    assert!(text.contains("[1:meow"));
    assert!(text.contains("[2:purr"));
}

#[test]
fn the_pieces_of_the_status_bar() {
    let r1 = RunState::Exited(Some(-1));
    let r2 = RunState::Restarting;
    let scripts = vec![
        ScriptView { name: "meow", visible: true, run_state: &r1 },
        ScriptView { name: "purr", visible: false, run_state: &r2 },
    ];
    let spans = build_status_spans(&scripts);
    let parts: Vec<(&str, Style)> =
        spans.iter().map(|s| (s.content.as_str(), s.style)).collect();
    let first = Style::new().fg(Color::Cyan);
    let second = Style::new().fg(Color::Yellow);
    assert_eq!(
        parts,
        vec![
            (" [1:meow exit:-1 ", first),
            ("ON", first.bold()),
            ("] ", first),
            (" [2:purr restarting ", second),
            ("off", second.dim()),
            ("] ", second),
        ]
    );
    assert!(build_status_spans(&[]).is_empty());
}

#[test]
fn centered_rect_places_dialog_in_middle() {
    let area = Rect::new(0, 0, 80, 24);
    let result = centered_rect(40, 10, area);
    assert_eq!(result.x, 20);
    assert_eq!(result.y, 7);
    assert_eq!(result.width, 40);
    assert_eq!(result.height, 10);
}

#[test]
fn centered_rect_clamps_to_area_when_too_large() {
    let area = Rect::new(0, 0, 20, 10);
    let result = centered_rect(40, 20, area);
    assert_eq!(result.width, 20);
    assert_eq!(result.height, 10);
}

#[test]
fn centered_rect_keeps_to_the_area() {
    let area = Rect::new(3, 5, 11, 7);
    let odd = centered_rect(4, 2, area);
    assert_eq!(odd, Rect::new(6, 7, 4, 2));
    assert_eq!(centered_rect(11, 7, area), area);
    assert_eq!(Rect::new(65_530, 0, 10, 1).width, 5);
}

#[test]
fn render_ui_draws_log_lines_and_status_bar() {
    let backend = TestBackend::new(60, 5);
    let mut terminal = Terminal::new(backend).unwrap();

    let log_lines = vec![raw("hello from whiskers"), raw("meow meow meow")];
    let run_state = RunState::Running;
    let scripts = vec![ScriptView { name: "whiskers", visible: true, run_state: &run_state }];
    let state = AppState {
        log_lines: &log_lines,
        scripts: &scripts,
        dialog: None,
        scroll_offset: 0,
    };

    terminal.draw(|frame| render_ui(frame, &state)).unwrap();

    let buf = terminal.backend().buffer().clone();
    let content = buffer_to_string(&buf);
    assert!(content.contains("hello from whiskers"));
    assert!(content.contains("meow meow meow"));
    // Status bar on the last row
    assert!(content.contains("[1:whiskers"));
    assert!(content.contains("ON"));
    let rows = rows_of(&buf);
    assert_eq!(rows[0], "hello from whiskers");
    assert_eq!(rows[1], "meow meow meow");
    assert_eq!(rows[4], " [1:whiskers ON]");
}

#[test]
fn render_ui_auto_scrolls_when_many_log_lines() {
    let backend = TestBackend::new(40, 4); // 3 rows for log, 1 for status
    let mut terminal = Terminal::new(backend).unwrap();

    let log_lines: Vec<Line> = (0..20).map(|i| raw(&format!("line {i}"))).collect();
    let run_state = RunState::Running;
    let scripts = vec![ScriptView { name: "cat", visible: true, run_state: &run_state }];
    let state = AppState {
        log_lines: &log_lines,
        scripts: &scripts,
        dialog: None,
        scroll_offset: 999, // past the end -> auto-scroll
    };

    terminal.draw(|frame| render_ui(frame, &state)).unwrap();

    let buf = terminal.backend().buffer().clone();
    let content = buffer_to_string(&buf);
    // Should show the last lines, not the first
    assert!(content.contains("line 19"));
    assert!(!content.contains("line 0"));
    assert_eq!(rows_of(&buf)[..3], ["line 17", "line 18", "line 19"]);
}

#[test]
fn render_ui_draws_dialog_overlay() {
    let backend = TestBackend::new(60, 20);
    let mut terminal = Terminal::new(backend).unwrap();

    let entries = vec![
        ("kitty".to_string(), "http://meow.cat".to_string()),
        ("nyan".to_string(), "http://nyan.cat".to_string()),
    ];
    let run_state = RunState::Running;
    let scripts = vec![ScriptView { name: "paws", visible: true, run_state: &run_state }];
    let state = AppState {
        log_lines: &[],
        scripts: &scripts,
        dialog: Some(DialogState {
            title: "Open URL",
            entries: &entries,
            help_text: "Press 1-9 to open",
        }),
        scroll_offset: 0,
    };

    terminal.draw(|frame| render_ui(frame, &state)).unwrap();

    let buf = terminal.backend().buffer().clone();
    let content = buffer_to_string(&buf);
    assert!(content.contains("Open URL"));
    assert!(content.contains("kitty"));
    assert!(content.contains("nyan"));
    assert!(content.contains("Press 1-9"));
}

#[test]
fn the_log_is_scrolled_no_further_than_its_end() {
    assert_eq!(first_line(20, 3, 999), 17);
    assert_eq!(first_line(20, 3, usize::MAX), 17);
    assert_eq!(first_line(20, 3, 17), 17);
    assert_eq!(first_line(20, 3, 5), 5);
    assert_eq!(first_line(2, 3, 1), 0);
    assert_eq!(first_line(0, 0, 4), 0);
}

#[test]
fn a_scrolled_log_starts_at_the_line_asked_for() {
    let mut terminal = Terminal::new(TestBackend::new(20, 4)).unwrap();
    let log_lines: Vec<Line> = (0..20).map(|i| raw(&format!("line {i}"))).collect();
    let state =
        AppState { log_lines: &log_lines, scripts: &[], dialog: None, scroll_offset: 5 };
    terminal.draw(|frame| render_ui(frame, &state)).unwrap();
    assert_eq!(rows_of(terminal.backend().buffer())[..3], ["line 5", "line 6", "line 7"]);
}

/// The rows of a terminal of this height with one line of log and one script.
fn rows_at_height(height: u16) -> Vec<String> {
    let mut terminal = Terminal::new(TestBackend::new(12, height)).unwrap();
    let log_lines = vec![raw("hello")];
    let run_state = RunState::Running;
    let scripts = vec![ScriptView { name: "cat", visible: true, run_state: &run_state }];
    let state = AppState {
        log_lines: &log_lines,
        scripts: &scripts,
        dialog: None,
        scroll_offset: usize::MAX,
    };
    let mut drawn = false;
    terminal.draw(|frame| drawn = render_if_it_fits(frame, &state)).unwrap();
    assert!(drawn);
    rows_of(terminal.backend().buffer())
}

#[test]
fn the_status_bar_takes_the_last_row_of_two_or_more() {
    for height in (2..60).chain([100, 255, 256, 1000, 5000]) {
        let rows = rows_at_height(height);
        let last = height as usize - 1;
        assert_eq!(rows[0], "hello");
        assert_eq!(rows[last], " [1:cat ON]");
        for row in &rows[1..last] {
            assert_eq!(row, "");
        }
    }
}

#[test]
fn the_status_bar_takes_the_last_row_of_many() {
    for height in [9_999, 20_000, 32_767] {
        let mut terminal = Terminal::new(TestBackend::new(2, height)).unwrap();
        let log_lines = vec![raw("h")];
        let run_state = RunState::Running;
        let scripts = vec![ScriptView { name: "cat", visible: true, run_state: &run_state }];
        let state = AppState {
            log_lines: &log_lines,
            scripts: &scripts,
            dialog: None,
            scroll_offset: 0,
        };
        terminal.draw(|frame| render_ui(frame, &state)).unwrap();
        let buf = terminal.backend().buffer();
        assert_eq!(buf[(0, 0)].symbol(), "h");
        assert_eq!(buf[(1, height - 2)].symbol(), " ");
        assert_eq!(buf[(1, height - 1)].symbol(), "[");
    }
}

#[test]
fn a_single_row_is_for_the_log() {
    assert_eq!(rows_at_height(1), vec!["hello"]);
    assert!(rows_at_height(0).is_empty());
}

#[test]
fn colors_and_emphasis_reach_the_screen() {
    let mut terminal = Terminal::new(TestBackend::new(20, 2)).unwrap();
    let style = Style::new().fg(Color::LightYellow).bold();
    let line = Line {
        spans: vec![
            Span { content: "a".to_string(), style },
            Span { content: "b".to_string(), style: Style::new().dim() },
        ],
    };
    let log_lines = vec![line];
    let run_state = RunState::Running;
    let scripts = vec![ScriptView { name: "cat", visible: false, run_state: &run_state }];
    let state = AppState {
        log_lines: &log_lines,
        scripts: &scripts,
        dialog: None,
        scroll_offset: 0,
    };
    terminal.draw(|frame| render_ui(frame, &state)).unwrap();
    let buf = terminal.backend().buffer();
    assert_eq!(buf[(0, 0)].fg, ratatui::style::Color::LightYellow);
    assert_eq!(buf[(0, 0)].modifier, ratatui::style::Modifier::BOLD);
    assert_eq!(buf[(1, 0)].fg, ratatui::style::Color::Reset);
    assert_eq!(buf[(1, 0)].modifier, ratatui::style::Modifier::DIM);
    assert_eq!(buf[(1, 1)].symbol(), "[");
    assert_eq!(buf[(1, 1)].fg, ratatui::style::Color::Cyan);
    assert_eq!(buf[(8, 1)].symbol(), "o");
    assert_eq!(buf[(8, 1)].modifier, ratatui::style::Modifier::DIM);
}

#[test]
fn every_color_has_its_name() {
    let all = [
        (Color::Cyan, ratatui::style::Color::Cyan),
        (Color::Yellow, ratatui::style::Color::Yellow),
        (Color::Green, ratatui::style::Color::Green),
        (Color::Magenta, ratatui::style::Color::Magenta),
        (Color::Blue, ratatui::style::Color::Blue),
        (Color::White, ratatui::style::Color::White),
        (Color::LightCyan, ratatui::style::Color::LightCyan),
        (Color::LightYellow, ratatui::style::Color::LightYellow),
        (Color::LightGreen, ratatui::style::Color::LightGreen),
        (Color::Red, ratatui::style::Color::Red),
    ];
    for (color, expected) in all {
        let mut terminal = Terminal::new(TestBackend::new(4, 2)).unwrap();
        let style = Style::new().fg(color);
        let log_lines = vec![Line { spans: vec![Span { content: "x".to_string(), style }] }];
        let state =
            AppState { log_lines: &log_lines, scripts: &[], dialog: None, scroll_offset: 0 };
        terminal.draw(|frame| render_ui(frame, &state)).unwrap();
        assert_eq!(terminal.backend().buffer()[(0, 0)].fg, expected);
    }
}

#[test]
fn long_lines_wrap() {
    let mut terminal = Terminal::new(TestBackend::new(6, 4)).unwrap();
    let log_lines = vec![raw("meow meow"), raw("purr")];
    let state =
        AppState { log_lines: &log_lines, scripts: &[], dialog: None, scroll_offset: 0 };
    terminal.draw(|frame| render_ui(frame, &state)).unwrap();
    assert_eq!(rows_of(terminal.backend().buffer())[..3], ["meow", "meow", "purr"]);
}

#[test]
fn the_size_of_a_dialog() {
    let area = Rect::new(0, 0, 80, 24);
    let none: Vec<(String, String)> = vec![];
    let small = DialogState { title: "T", entries: &none, help_text: "H" };
    assert_eq!(dialog_size(&small, area), (22, 4));
    let titled = DialogState { title: "A title of twenty-two!", entries: &none, help_text: "" };
    assert_eq!(dialog_size(&titled, area), (28, 4));
    let helped = DialogState { title: "", entries: &none, help_text: "0123456789012345678901234" };
    assert_eq!(dialog_size(&helped, area), (29, 4));
    let entries = vec![
        ("name".to_string(), "x".repeat(60)),
        ("n".to_string(), "short".to_string()),
    ];
    let wide = DialogState { title: "", entries: &entries, help_text: "" };
    assert_eq!(dialog_size(&wide, area), (5 + 4 + 4 + 53 + 2, 6));
    assert_eq!(dialog_size(&wide, Rect::new(0, 0, 30, 5)), (30, 5));
}

#[test]
fn the_lines_of_a_dialog() {
    let entries = vec![
        ("home".to_string(), "http://x".to_string()),
        ("long".to_string(), "y".repeat(51)),
        ("edge".to_string(), "z".repeat(50)),
    ];
    let dialog = DialogState { title: "T", entries: &entries, help_text: "help" };
    let lines = dialog_lines(&dialog);
    assert_eq!(lines.len(), 5);
    assert_eq!(text_of(&lines[0]), "  1) home    http://x");
    assert_eq!(lines[0].spans[1].content, "1)");
    assert_eq!(lines[0].spans[1].style, Style::new().bold());
    assert_eq!(text_of(&lines[1]), format!("  2) long    {}...", "y".repeat(50)));
    assert_eq!(text_of(&lines[2]), format!("  3) edge    {}", "z".repeat(50)));
    assert!(lines[3].spans.is_empty());
    assert_eq!(text_of(&lines[4]), "  help");
}

#[test]
fn a_dialog_shows_nine_entries() {
    let entries: Vec<(String, String)> =
        (0..12).map(|i| (format!("n{i}"), "d".to_string())).collect();
    let dialog = DialogState { title: "T", entries: &entries, help_text: "help" };
    let lines = dialog_lines(&dialog);
    assert_eq!(lines.len(), 11);
    assert_eq!(text_of(&lines[8]), "  9) n8    d");
    assert_eq!(dialog_size(&dialog, Rect::new(0, 0, 80, 24)).1, 16);
}

/// The picture with and without a dialog.
fn with_and_without_dialog() -> (Buffer, Buffer, Rect) {
    let entries = vec![("kitty".to_string(), "http://meow.cat".to_string())];
    let log_lines: Vec<Line> = (0..9).map(|_| raw(&"#".repeat(40))).collect();
    let area = Rect::new(0, 0, 40, 10);
    let mut pictures = Vec::new();
    let mut place = area;
    for open in [true, false] {
        let dialog = DialogState { title: "Open", entries: &entries, help_text: "Press" };
        let (width, height) = dialog_size(&dialog, area);
        place = centered_rect(width, height, area);
        let state = AppState {
            log_lines: &log_lines,
            scripts: &[],
            dialog: if open { Some(dialog) } else { None },
            scroll_offset: 0,
        };
        let mut terminal = Terminal::new(TestBackend::new(40, 10)).unwrap();
        let mut drawn = false;
        terminal.draw(|frame| drawn = render_if_it_fits(frame, &state)).unwrap();
        assert!(drawn);
        pictures.push(terminal.backend().buffer().clone());
    }
    let without = pictures.pop().unwrap();
    let with = pictures.pop().unwrap();
    (with, without, place)
}

#[test]
fn a_dialog_hides_only_what_lies_behind_its_box() {
    let (with, without, place) = with_and_without_dialog();
    assert_eq!(place, Rect::new(4, 2, 31, 5));
    for y in 0..10 {
        for x in 0..40 {
            let behind = x >= place.x
                && x < place.x + place.width
                && y >= place.y
                && y < place.y + place.height;
            if behind {
                assert_ne!(with[(x, y)].symbol(), "#");
            } else {
                assert_eq!(with[(x, y)], without[(x, y)]);
            }
        }
    }
    let rows = rows_of(&with);
    assert!(rows[2].contains("┌ Open ─"));
    assert!(rows[3].contains("│  1) kitty    http://meow.cat"));
    assert!(rows[5].contains("│  Press"));
    assert!(rows[6].contains("└──"));
}

#[test]
fn a_picture_can_lie_anywhere_on_the_terminal() {
    let area = ratatui::layout::Rect::new(4, 3, 20, 3);
    let options = TerminalOptions { viewport: Viewport::Fixed(area) };
    let mut terminal = Terminal::with_options(TestBackend::new(40, 10), options).unwrap();
    let log_lines = vec![raw("hello")];
    let run_state = RunState::Running;
    let scripts = vec![ScriptView { name: "cat", visible: true, run_state: &run_state }];
    let state = AppState {
        log_lines: &log_lines,
        scripts: &scripts,
        dialog: None,
        scroll_offset: 0,
    };
    let mut drawn = false;
    terminal.draw(|frame| drawn = render_if_it_fits(frame, &state)).unwrap();
    assert!(drawn);
    let rows = rows_of(terminal.backend().buffer());
    assert_eq!(rows[3], "    hello");
    assert_eq!(rows[5], "     [1:cat ON]");
}

/// Whether a line fits on a terminal of this size.
fn fits(content: &str, width: u16, height: u16) -> bool {
    let mut terminal = Terminal::new(TestBackend::new(width, height)).unwrap();
    let log_lines = vec![raw(content)];
    let state =
        AppState { log_lines: &log_lines, scripts: &[], dialog: None, scroll_offset: 0 };
    let mut drawn = false;
    terminal.draw(|frame| drawn = render_if_it_fits(frame, &state)).unwrap();
    drawn
}

#[test]
fn wide_text_is_drawn() {
    assert!(fits("日本語のログ 日本語のログ", 7, 6));
    assert!(fits("🐈 meow 🐈", 8, 6));
}

#[test]
fn text_that_leaves_the_screen_is_not_drawn() {
    assert!(!fits("\u{301} 字字字字字字", 6, 8));
    assert!(!fits("a\u{200b}字字字字字字", 6, 8));
    assert!(!fits("a字字字", 2, 8));
}

#[test]
fn text_that_leaves_a_dialog_may_land_on_its_border() {
    let entries = vec![("x".to_string(), "a\u{200b}字字字字字字".to_string())];
    let mut terminal = Terminal::new(TestBackend::new(12, 12)).unwrap();
    let state = AppState {
        log_lines: &[],
        scripts: &[],
        dialog: Some(DialogState { title: "", entries: &entries, help_text: "" }),
        scroll_offset: 0,
    };
    let mut drawn = false;
    terminal.draw(|frame| drawn = render_if_it_fits(frame, &state)).unwrap();
    assert!(drawn);
    let buf = terminal.backend().buffer();
    let on_border = (0..12).filter(|y| buf[(11, *y)].symbol() == "字").count();
    assert_eq!(on_border, 1);
}

#[test]
fn a_detail_with_a_character_across_the_cut_is_not_drawn() {
    let across = format!("{}é{}", "x".repeat(49), "y".repeat(9));
    let aside = format!("{}é{}", "x".repeat(48), "y".repeat(9));
    for (detail, expected) in [(across, false), (aside, true)] {
        let entries = vec![("n".to_string(), detail)];
        let mut terminal = Terminal::new(TestBackend::new(90, 12)).unwrap();
        let state = AppState {
            log_lines: &[],
            scripts: &[],
            dialog: Some(DialogState { title: "", entries: &entries, help_text: "" }),
            scroll_offset: 0,
        };
        let mut drawn = false;
        terminal.draw(|frame| drawn = render_if_it_fits(frame, &state)).unwrap();
        assert_eq!(drawn, expected);
        let rows = rows_of(terminal.backend().buffer());
        assert_eq!(rows.concat().contains("..."), expected);
    }
}

#[test]
fn how_wide_a_screen_can_be() {
    for width in [16_384, 65_533, 65_534, 65_535] {
        assert!(fits("hello", width, 2));
        assert!(fits("字", width, 2));
        assert!(fits("", width, 2));
    }
    // A line that is longer than the widest screen needs room for more symbols.
    let long = "x".repeat(70_000);
    assert!(fits(&long, 65_534, 3));
    assert!(!fits(&long, 65_535, 3));
    let wide = "字".repeat(35_000);
    assert!(fits(&wide, 65_531, 3));
    assert!(!fits(&wide, 65_532, 3));
}

#[test]
fn a_line_that_is_never_laid_out_may_have_any_width() {
    let long = "x".repeat(70_000);
    let rows = vec![ink("meow"), ink(&long)];
    assert!(!check_wrap(&rows, 0, 65_535, 2));
    assert!(check_wrap(&rows, 0, 65_535, 1));
    assert!(!check_wrap(&rows, 1, 65_535, 1));
    assert!(check_wrap(&rows, 0, 65_535, 0));
    assert!(check_wrap(&rows, 0, 0, 2));
    assert!(check_wrap(&vec![], u16::MAX, 65_535, 2));
    assert!(check_wrap(&rows, 65_533, 20, 2));
    assert!(!check_wrap(&rows, 65_534, 20, 2));
}

/// Whether the end of a log of `count` lines, of which the last one is as given, fits in rows 3
/// to 5 of a terminal.
fn end_fits(count: usize, last: &str) -> bool {
    let area = ratatui::layout::Rect::new(0, 3, 10, 3);
    let options = TerminalOptions { viewport: Viewport::Fixed(area) };
    let mut terminal = Terminal::with_options(TestBackend::new(10, 8), options).unwrap();
    let mut log_lines: Vec<Line> = (1..count).map(|_| raw("x")).collect();
    log_lines.push(raw(last));
    let state =
        AppState { log_lines: &log_lines, scripts: &[], dialog: None, scroll_offset: usize::MAX };
    let mut drawn = false;
    terminal.draw(|frame| drawn = render_if_it_fits(frame, &state)).unwrap();
    if drawn {
        assert_eq!(rows_of(terminal.backend().buffer())[3..5], ["x", last]);
    }
    drawn
}

#[test]
fn how_far_a_log_can_be_scrolled() {
    assert!(end_fits(65_533, "y"));
    assert!(!end_fits(65_534, "y"));
    assert!(end_fits(65_534, ""));
    assert!(!end_fits(65_535, ""));
}

/// Whether a status bar with one script of this name fits on a terminal of this width.
fn status_fits(name: &str, width: u16) -> bool {
    let run_state = RunState::Running;
    let scripts = vec![ScriptView { name, visible: true, run_state: &run_state }];
    let state = AppState { log_lines: &[], scripts: &scripts, dialog: None, scroll_offset: 0 };
    let mut terminal = Terminal::new(TestBackend::new(width, 2)).unwrap();
    let mut drawn = false;
    terminal.draw(|frame| drawn = render_if_it_fits(frame, &state)).unwrap();
    drawn
}

#[test]
fn how_long_a_status_bar_can_be() {
    assert!(status_fits("cat", 65_535));
    assert!(status_fits("字", 65_535));
    assert!(!status_fits(&"x".repeat(70_000), 65_535));
    assert!(status_fits(&"x".repeat(70_000), 65_534));
    assert!(!status_fits(&"字".repeat(35_000), 65_534));
    assert!(status_fits(&"字".repeat(35_000), 65_533));
}

#[test]
fn a_symbol_that_hides_its_width() {
    // One symbol, made of initial consonants of two columns each.
    let symbol = "\u{1100}".repeat(32_768);
    // It starts behind the four columns of the number.
    assert!(!status_fits(&symbol, 4));
    assert!(status_fits(&symbol, 5));
    assert!(status_fits(&symbol, 3));
}

#[test]
fn a_long_name_is_cut_off() {
    let name = "x".repeat(70_000);
    let run_state = RunState::Running;
    let scripts = vec![ScriptView { name: &name, visible: true, run_state: &run_state }];
    let state = AppState { log_lines: &[], scripts: &scripts, dialog: None, scroll_offset: 0 };
    let mut terminal = Terminal::new(TestBackend::new(20, 2)).unwrap();
    let mut drawn = false;
    terminal.draw(|frame| drawn = render_if_it_fits(frame, &state)).unwrap();
    assert!(drawn);
    assert_eq!(rows_of(terminal.backend().buffer())[1], " [1:xxxxxxxxxxxxxxxx");
}

#[test]
fn a_long_line_wraps() {
    let content = "x".repeat(70_000);
    assert!(fits(&content, 20_000, 8));
}

#[test]
fn the_width_of_a_title() {
    // A space stands on each side of the title.
    for (length, expected) in [(65_532, true), (65_533, false), (65_534, true)] {
        let title = "x".repeat(length);
        let state = AppState {
            log_lines: &[],
            scripts: &[],
            dialog: Some(DialogState { title: &title, entries: &[], help_text: "" }),
            scroll_offset: 0,
        };
        let mut terminal = Terminal::new(TestBackend::new(20, 8)).unwrap();
        let mut drawn = false;
        terminal.draw(|frame| drawn = render_if_it_fits(frame, &state)).unwrap();
        assert_eq!(drawn, expected);
    }
    // A box that is two columns wide has no room for a title.
    let title = "x".repeat(65_533);
    let dialog = DialogState { title: &title, entries: &[], help_text: "" };
    let state =
        AppState { log_lines: &[], scripts: &[], dialog: Some(dialog), scroll_offset: 0 };
    for (width, expected) in [(2, true), (3, false)] {
        let mut terminal = Terminal::new(TestBackend::new(width, 8)).unwrap();
        let mut drawn = false;
        terminal.draw(|frame| drawn = render_if_it_fits(frame, &state)).unwrap();
        assert_eq!(drawn, expected);
    }
    assert!(!check_title(&title.replacen('x', "xxx", 1), Rect::new(0, 0, 3, 1)));
    assert!(check_title(&title.replacen('x', "xxx", 1), Rect::new(0, 0, 2, 1)));
    assert!(check_title(&title.replacen('x', "xxx", 1), Rect::new(0, 0, 3, 0)));
    assert!(check_title(&"meow".to_string(), Rect::new(0, 0, 20, 4)));
    assert!(check_title_width(65_534));
    assert!(!check_title_width(65_535));
    assert!(check_title_width(65_536));
}

fn ink(text: &str) -> InkLine {
    InkLine {
        pieces: vec![Ink { text: text.to_string(), color: String::new(), modifiers: 0 }],
    }
}

#[test]
fn symbols_and_their_widths() {
    assert_eq!(widest_width(&vec![1, 2, 0], 10), 2);
    assert_eq!(widest_width(&vec![1, 2, 11], 10), 2);
    assert_eq!(widest_width(&vec![65_539], 10), 3);
    assert_eq!(widest_width(&vec![], 10), 0);
    assert!(check_widths(&vec![0, 1, 65_537]));
    assert!(!check_widths(&vec![1, 65_536]));
    assert!(check_all_wide(&vec![1, 2, 65_537]));
    assert!(!check_all_wide(&vec![1, 0]));
    assert!(!check_all_wide(&vec![65_536]));
    assert_eq!(columns_of(&vec![1, 2, 11, 65_539], 10), 6);
    assert_eq!(columns_of(&vec![60_000, 60_000], 65_535), 65_536);
    // An accent belongs to the symbol of its letter.
    let mut row = "e\u{301}".repeat(65_535);
    assert!(check_wrap(&vec![ink(&row)], 0, 65_535, 1));
    row.push('x');
    assert!(!check_wrap(&vec![ink(&row)], 0, 65_535, 1));
    assert!(check_wrap(&vec![ink(&row)], 0, 65_534, 1));
}

#[test]
fn rows_that_can_be_wrapped() {
    assert!(check_row(&vec![1; 65_535], 65_535));
    assert!(!check_row(&vec![1; 65_536], 65_535));
    assert!(check_row(&vec![1; 65_536], 65_534));
    assert!(check_row(&vec![2; 32_767], 65_535));
    assert!(check_row(&vec![2; 32_768], 65_531));
    assert!(!check_row(&vec![2; 32_768], 65_532));
    // Symbols without a width leave one column less.
    let mut row = vec![1; 65_536];
    row.push(0);
    assert!(check_row(&row, 65_533));
    assert!(!check_row(&row, 65_534));
    // So does one that hides its width.
    let mut row = vec![1; 65_534];
    row.push(65_536);
    assert!(check_row(&row, 65_535));
    row.push(1);
    assert!(!check_row(&row, 65_535));
}

#[test]
fn lines_that_can_be_cut_off() {
    assert!(check_cut(&vec![1; 65_535], 65_535));
    assert!(!check_cut(&vec![1; 65_536], 65_535));
    assert!(check_cut(&vec![1; 65_536], 65_534));
    assert!(!check_cut(&vec![2; 32_768], 65_534));
    assert!(check_cut(&vec![2; 32_768], 65_533));
    assert!(check_cut(&vec![2, 40_000, 40_000], 1));
    assert!(check_overhang(&vec![1, 65_536], 1));
    assert!(!check_overhang(&vec![65_536, 1], 1));
    assert!(!check_overhang(&vec![1, 65_536], 2));
    assert!(!check_overhang(&vec![1, 1, 65_536], 1));
    assert!(!check_overhang(&vec![1, 0], 1));
    let area = Rect::new(3, 4, 1, 1);
    assert!(overhang_lands(&vec![1, 65_536], area, Rect::new(3, 4, 2, 1), 2));
    assert!(!overhang_lands(&vec![1, 65_536], area, Rect::new(3, 4, 1, 1), 1));
    assert!(overhang_lands(&vec![1], area, Rect::new(3, 4, 1, 1), 1));
    assert!(overhang_lands(&vec![1, 65_536], Rect::new(3, 4, 1, 0), Rect::new(3, 4, 1, 1), 1));
}

#[test]
fn cells_of_a_canvas() {
    let canvas = Rect::new(2, 3, 4, 5);
    assert!(canvas_covers(canvas, 20, canvas));
    assert!(!canvas_covers(canvas, 19, canvas));
    assert!(canvas_covers(canvas, 8, Rect::new(2, 3, 4, 2)));
    assert!(!canvas_covers(canvas, 20, Rect::new(1, 3, 4, 5)));
    assert!(!canvas_covers(canvas, 20, Rect::new(2, 3, 5, 5)));
    assert!(canvas_covers(canvas, 20, Rect::new(50, 50, 0, 5)));
}

#[test]
fn the_inside_of_a_box() {
    assert_eq!(inner_area(Rect::new(3, 4, 10, 5)), Rect::new(4, 5, 8, 3));
    assert_eq!(inner_area(Rect::new(3, 4, 1, 2)), Rect::new(4, 5, 0, 0));
    assert_eq!(inner_area(Rect::new(3, 4, 0, 0)), Rect::new(3, 4, 0, 0));
}
