use std::collections::{HashMap, VecDeque};
use std::sync::atomic::AtomicBool;

use mux::config::{Config, ScriptConfig, UrlConfig};
use mux::display::{ratatui_color, styled_config_reload_line, Line};
use mux::draw::{count_shown, dialog_entries, draw, script_views, visible_lines};
use mux::mux::{push_log, LogEntry, Mux};
use mux::process::{Event, OutputLine};
use mux::script::{
    find_generation, find_live, find_named, free_slot, name_width, spawn_supervisor, Action,
};
use mux::step::{Dialog, LoopAction, MAX_LOG_LINES};
use mux::terminal::{build_status_spans, RunState};
use ratatui::backend::TestBackend;
use ratatui::Terminal;

fn config(scripts: &[(&str, &str)]) -> Config {
    let scripts = scripts
        .iter()
        .map(|(name, cmd)| ScriptConfig { name: name.to_string(), cmd: cmd.to_string() })
        .collect();
    Config { scripts, urls: None }
}

fn with_urls(mut config: Config, urls: &[(&str, &str)]) -> Config {
    let urls = urls
        .iter()
        .map(|(name, url)| UrlConfig { name: name.to_string(), url: url.to_string() })
        .collect();
    config.urls = Some(urls);
    config
}

fn three() -> Mux {
    Mux::new(config(&[("a", "run a"), ("bb", "run b"), ("ccc", "run c")])).0
}

fn key(c: char) -> Event {
    Event::Keypress(c as u8)
}

fn out(name: &str, line: &str) -> Event {
    Event::Output(OutputLine::Stdout { script_name: name.to_string(), line: line.to_string() })
}

fn err(name: &str, line: &str) -> Event {
    Event::Output(OutputLine::Stderr { script_name: name.to_string(), line: line.to_string() })
}

fn exited(name: &str, code: Option<i32>, generation: u64) -> Event {
    Event::Output(OutputLine::Exited { script_name: name.to_string(), code, generation })
}

fn restarting(name: &str, generation: u64) -> Event {
    Event::Output(OutputLine::Restarting { script_name: name.to_string(), generation })
}

fn restarted(name: &str, generation: u64) -> Event {
    Event::Output(OutputLine::Restarted { script_name: name.to_string(), generation })
}

/// Requests in short.
fn asked(actions: &[Action]) -> Vec<String> {
    actions
        .iter()
        .map(|a| match a {
            Action::OpenUrl(url) => format!("open {url}"),
            Action::TriggerShutdown => "shutdown".to_string(),
            Action::Stop { slot } => format!("stop {slot}"),
            Action::Spawn { slot, name, cmd, generation } => {
                format!("spawn {slot} {name} {cmd} {generation}")
            }
        })
        .collect()
}

/// Handles an event that does not end the loop.
fn handle(mux: &mut Mux, event: Event) -> Vec<String> {
    let (flow, actions) = mux.handle_event(event, &[]);
    assert_eq!(flow, LoopAction::Continue);
    asked(&actions)
}

fn text(line: &Line) -> String {
    line.spans.iter().map(|s| s.content.as_str()).collect()
}

fn log(mux: &Mux) -> Vec<String> {
    mux.log.iter().map(|e| text(&e.formatted)).collect()
}

fn names(mux: &Mux) -> Vec<&str> {
    mux.scripts.iter().map(|s| s.name.as_str()).collect()
}

#[test]
fn the_start() {
    let (mux, actions) =
        Mux::new(with_urls(config(&[("a", "run a"), ("bb", "run b")]), &[("home", "http://x")]));
    assert_eq!(asked(&actions), ["spawn 0 a run a 0", "spawn 1 bb run b 0"]);
    assert_eq!(mux.name_width, 2);
    assert_eq!(mux.scroll_offset, usize::MAX);
    assert_eq!(mux.urls[0].url, "http://x");
    assert!(mux.log.is_empty() && mux.buffered_events.is_empty() && mux.dialog.is_none());
    assert!(!mux.shutting_down);
    assert_eq!(mux.exited_count, 0);
    for (i, s) in mux.scripts.iter().enumerate() {
        assert!(s.visible && !s.stopping);
        assert_eq!(s.run_state, RunState::Running);
        assert_eq!(s.color, ratatui_color(i));
        assert_eq!((s.slot, s.generation), (i, 0));
    }
}

#[test]
fn output_is_logged_under_its_name() {
    let mut mux = three();
    handle(&mut mux, out("a", "hello"));
    handle(&mut mux, err("bb", "oops"));
    handle(&mut mux, out("nobody", "lost"));
    assert_eq!(log(&mux), ["  a | hello", " bb | oops"]);
    assert!(!mux.log[0].always_visible);
    assert_eq!(mux.log[1].script_name, "bb");
}

#[test]
fn the_output_functions_can_be_called_directly() {
    let mut mux = three();
    mux.handle_output("ccc".to_string(), "x".to_string(), true);
    assert_eq!(log(&mux), ["ccc | x"]);
    mux.show_dialog(Dialog::Restart);
    assert_eq!(mux.dialog, Some(Dialog::Restart));
    mux.buffered_events.push(out("a", "later"));
    let (flow, actions) = mux.dismiss_dialog(&[]);
    assert_eq!(flow, LoopAction::Continue);
    assert!(actions.is_empty());
    assert_eq!(log(&mux), ["ccc | x", "  a | later"]);
    assert_eq!(asked(&mux.restart_script(1)), ["stop 1", "spawn 1 bb run b 1"]);
}

#[test]
fn exits_and_restarts_change_the_state() {
    let mut mux = three();
    handle(&mut mux, exited("a", Some(2), 0));
    assert_eq!(mux.scripts[0].run_state, RunState::Exited(Some(2)));
    handle(&mut mux, restarting("a", 0));
    assert_eq!(mux.scripts[0].run_state, RunState::Restarting);
    handle(&mut mux, restarted("a", 0));
    assert_eq!(mux.scripts[0].run_state, RunState::Running);
    handle(&mut mux, exited("bb", None, 0));
    assert_eq!(
        log(&mux),
        ["  a | exited with code 2", "  a | restarting...", " bb | exited with signal"]
    );
    assert!(mux.log.iter().all(|e| e.always_visible));
    handle(&mut mux, exited("nobody", None, 0));
    handle(&mut mux, restarted("nobody", 0));
    assert_eq!(mux.log.len(), 3);
}

#[test]
fn reports_of_another_generation_change_no_state() {
    let mut mux = three();
    handle(&mut mux, exited("a", Some(2), 7));
    handle(&mut mux, restarting("a", 7));
    handle(&mut mux, restarted("a", 7));
    assert_eq!(mux.scripts[0].run_state, RunState::Running);
    assert_eq!(log(&mux), ["  a | exited with code 2"]);
}

#[test]
fn late_reports_do_not_touch_a_restarted_script() {
    let mut mux = three();
    handle(&mut mux, key('r'));
    assert_eq!(handle(&mut mux, key('2')), ["stop 1", "spawn 1 bb run b 1"]);
    assert_eq!(mux.scripts[1].run_state, RunState::Restarting);
    handle(&mut mux, exited("bb", Some(130), 0));
    assert_eq!(mux.scripts[1].run_state, RunState::Restarting);
    handle(&mut mux, restarted("bb", 0));
    assert_eq!(mux.scripts[1].run_state, RunState::Restarting);
    handle(&mut mux, exited("bb", Some(1), 1));
    assert_eq!(mux.scripts[1].run_state, RunState::Exited(Some(1)));
}

#[test]
fn digits_hide_and_show() {
    let mut mux = three();
    handle(&mut mux, key('2'));
    assert!(!mux.scripts[1].visible);
    handle(&mut mux, key('2'));
    assert!(mux.scripts[1].visible);
    handle(&mut mux, key('4'));
    handle(&mut mux, key('0'));
    handle(&mut mux, key('x'));
    assert!(mux.scripts.iter().all(|s| s.visible));
}

#[test]
fn quitting_triggers_a_shutdown_once() {
    let mut mux = three();
    assert_eq!(handle(&mut mux, key('q')), ["shutdown"]);
    assert!(mux.shutting_down);
    assert!(handle(&mut mux, key('q')).is_empty());
    assert!(handle(&mut mux, key('1')).is_empty());
    assert!(mux.scripts[0].visible);
    handle(&mut mux, key('r'));
    assert!(mux.dialog.is_none());
    assert!(handle(&mut mux, Event::ConfigReloaded(config(&[("z", "run z")]))).is_empty());
    assert_eq!(names(&mux), ["a", "bb", "ccc"]);
    assert!(mux.log.is_empty());
}

#[test]
fn the_loop_ends_with_the_last_exit_of_a_shutdown() {
    let mut mux = three();
    handle(&mut mux, exited("a", Some(0), 0));
    let (flow, _) = mux.handle_event(Event::Resize(1, 1), &[true]);
    assert_eq!(flow, LoopAction::Continue);
    assert!(mux.shutting_down);
    handle(&mut mux, exited("a", Some(0), 0));
    handle(&mut mux, exited("bb", Some(0), 0));
    let (flow, actions) = mux.handle_event(exited("ccc", None, 0), &[false]);
    assert_eq!(flow, LoopAction::Break);
    assert!(actions.is_empty());
    assert_eq!(mux.exited_count, 3);
}

#[test]
fn a_dialog_needs_something_to_offer() {
    let mut mux = three();
    handle(&mut mux, key('o'));
    assert!(mux.dialog.is_none());
    handle(&mut mux, key('r'));
    assert_eq!(mux.dialog, Some(Dialog::Restart));
    let mut none = Mux::new(config(&[])).0;
    handle(&mut none, key('r'));
    assert!(none.dialog.is_none());
    assert_eq!(none.name_width, 1);
}

#[test]
fn an_address_is_opened() {
    let urls = [("home", "http://x"), ("docs", "http://y")];
    let mut mux = Mux::new(with_urls(config(&[("a", "run a")]), &urls)).0;
    handle(&mut mux, key('o'));
    assert_eq!(mux.dialog, Some(Dialog::Urls));
    assert_eq!(handle(&mut mux, key('2')), ["open http://y"]);
    assert!(mux.dialog.is_none());
    handle(&mut mux, key('o'));
    assert!(handle(&mut mux, key('3')).is_empty());
    assert!(mux.dialog.is_none());
    assert!(mux.scripts[0].visible);
}

#[test]
fn any_key_closes_a_dialog() {
    for closing in [0x1b, b'q', b'r', b'9', 0x03] {
        let mut mux = three();
        handle(&mut mux, key('r'));
        assert!(handle(&mut mux, Event::Keypress(closing)).is_empty());
        assert!(mux.dialog.is_none());
        assert!(!mux.shutting_down);
    }
}

#[test]
fn events_wait_for_a_dialog_to_close() {
    let mut delayed = three();
    handle(&mut delayed, key('r'));
    let mut direct = three();
    for event in [
        out("a", "one"),
        exited("bb", Some(1), 0),
        Event::ConfigError("bad".to_string()),
        Event::ConfigReloaded(config(&[("a", "other"), ("z", "run z")])),
        err("z", "two"),
    ] {
        assert!(handle(&mut delayed, event).is_empty());
    }
    assert!(delayed.log.is_empty());
    assert_eq!(delayed.buffered_events.len(), 5);
    let late = handle(&mut delayed, Event::Keypress(0x1b));
    let mut soon = Vec::new();
    for event in [
        out("a", "one"),
        exited("bb", Some(1), 0),
        Event::ConfigError("bad".to_string()),
        Event::ConfigReloaded(config(&[("a", "other"), ("z", "run z")])),
        err("z", "two"),
    ] {
        soon.extend(handle(&mut direct, event));
    }
    assert_eq!(late, soon);
    assert_eq!(log(&delayed), log(&direct));
    assert_eq!(names(&delayed), names(&direct));
    assert!(delayed.buffered_events.is_empty());
}

#[test]
fn an_exit_that_waited_ends_the_loop() {
    for closing in [0x1b, b'1'] {
        let mut mux = Mux::new(config(&[("a", "run a")])).0;
        handle(&mut mux, key('r'));
        let (flow, _) = mux.handle_event(exited("a", Some(0), 0), &[true]);
        assert_eq!(flow, LoopAction::Continue);
        handle(&mut mux, out("a", "dropped"));
        let (flow, actions) = mux.handle_event(Event::Keypress(closing), &[true]);
        assert_eq!(flow, LoopAction::Break);
        assert!(actions.is_empty());
        assert!(mux.dialog.is_none());
        assert_eq!(mux.exited_count, 1);
        assert_eq!(mux.scripts[0].run_state, RunState::Exited(Some(0)));
        assert_eq!(log(&mux), ["a | exited with code 0"]);
    }
}

#[test]
fn the_flag_is_read_at_each_event_that_waited() {
    // The readings: at the key, at the line of output, and at the exit.
    for (flags, end) in [
        ([false, false, false], LoopAction::Continue),
        ([false, false, true], LoopAction::Break),
        ([false, true, false], LoopAction::Break),
        ([true, false, false], LoopAction::Break),
    ] {
        let mut mux = Mux::new(config(&[("a", "run a")])).0;
        handle(&mut mux, key('r'));
        handle(&mut mux, out("a", "one"));
        handle(&mut mux, exited("a", Some(0), 0));
        handle(&mut mux, out("a", "two"));
        let (flow, _) = mux.handle_event(Event::Keypress(0x1b), &flags);
        assert_eq!(flow, end);
        let ended = end == LoopAction::Break;
        assert_eq!(mux.shutting_down, ended);
        assert_eq!(mux.exited_count, ended as usize);
        assert_eq!(log(&mux).len(), if ended { 2 } else { 3 });
    }
    let mut mux = three();
    mux.show_dialog(Dialog::Urls);
    handle(&mut mux, out("a", "one"));
    handle(&mut mux, Event::ConfigReloaded(config(&[("z", "run z")])));
    let (flow, actions) = mux.dismiss_dialog(&[false, true]);
    assert_eq!(flow, LoopAction::Continue);
    assert!(actions.is_empty());
    assert!(mux.shutting_down);
    assert_eq!(names(&mux), ["a", "bb", "ccc"]);
}

#[test]
fn the_flag_is_read_while_events_are_handled() {
    let clear = AtomicBool::new(false);
    let set = AtomicBool::new(true);
    let mut mux = Mux::new(config(&[("a", "run a")])).0;
    let (flow, actions) = mux.handle_now(key('r'), &clear);
    assert_eq!(flow, LoopAction::Continue);
    assert!(actions.is_empty());
    assert_eq!(mux.dialog, Some(Dialog::Restart));
    let (flow, actions) = mux.handle_now(key('1'), &clear);
    assert_eq!(flow, LoopAction::Continue);
    assert_eq!(asked(&actions), ["stop 0", "spawn 0 a run a 1"]);
    assert!(!mux.shutting_down);
    mux.show_dialog(Dialog::Restart);
    let (flow, _) = mux.handle_now(exited("a", Some(0), 1), &clear);
    assert_eq!(flow, LoopAction::Continue);
    let (flow, actions) = mux.handle_now(key('1'), &set);
    assert_eq!(flow, LoopAction::Break);
    assert!(actions.is_empty());
    assert!(mux.shutting_down);
}

#[test]
fn a_script_that_stops_is_not_restarted() {
    let mut mux = three();
    mux.scripts[1].stopping = true;
    mux.scripts[1].generation = u64::MAX;
    handle(&mut mux, key('r'));
    assert!(handle(&mut mux, key('2')).is_empty());
    assert_eq!(mux.scripts[1].generation, u64::MAX);
}

#[test]
fn an_exit_is_counted_only_in_a_shutdown() {
    let mut mux = three();
    mux.exited_count = usize::MAX;
    handle(&mut mux, exited("a", Some(0), 0));
    let (flow, _) = mux.handle_event(out("a", "x"), &[true]);
    assert_eq!(flow, LoopAction::Continue);
    assert_eq!(mux.exited_count, usize::MAX);
}

#[test]
fn a_dialog_that_closes_too_early_does_not_end_the_loop() {
    let mut mux = three();
    handle(&mut mux, key('r'));
    for name in ["a", "bb"] {
        let (flow, _) = mux.handle_event(exited(name, Some(0), 0), &[true]);
        assert_eq!(flow, LoopAction::Continue);
    }
    handle(&mut mux, Event::Keypress(0x1b));
    assert_eq!(mux.exited_count, 2);
    mux.show_dialog(Dialog::Restart);
    handle(&mut mux, exited("ccc", None, 0));
    let (flow, _) = mux.dismiss_dialog(&[]);
    assert_eq!(flow, LoopAction::Break);
    assert_eq!(mux.exited_count, 3);
}

#[test]
fn a_reload_brings_the_scripts_in_line() {
    let mut mux = three();
    handle(&mut mux, key('1'));
    handle(&mut mux, key('3'));
    handle(&mut mux, exited("bb", Some(1), 0));
    let next = with_urls(
        config(&[("ccc", "new c"), ("dddd", "run d"), ("bb", "run b")]),
        &[("home", "http://x")],
    );
    let actions = handle(&mut mux, Event::ConfigReloaded(next));
    assert_eq!(actions, ["stop 0", "stop 2", "spawn 3 ccc new c 0", "spawn 4 dddd run d 0"]);
    assert_eq!(names(&mux), ["ccc", "dddd", "bb", "a", "ccc"]);
    let stopping: Vec<bool> = mux.scripts.iter().map(|s| s.stopping).collect();
    assert_eq!(stopping, [false, false, false, true, true]);
    let visible: Vec<bool> = mux.scripts.iter().map(|s| s.visible).collect();
    assert_eq!(visible, [false, true, true, false, false]);
    assert_eq!(mux.scripts[2].run_state, RunState::Exited(Some(1)));
    assert_eq!(mux.scripts[2].slot, 1);
    for (i, s) in mux.scripts.iter().enumerate() {
        assert_eq!(s.color, ratatui_color(i));
    }
    assert_eq!(mux.name_width, 4);
    assert_eq!(mux.urls.len(), 1);
    assert_eq!(log(&mux).last().unwrap(), "--- config reloaded ---");
}

#[test]
fn a_reload_of_the_same_configuration_asks_for_nothing() {
    let mut mux = three();
    let same = config(&[("a", "run a"), ("bb", "run b"), ("ccc", "run c")]);
    assert!(handle(&mut mux, Event::ConfigReloaded(same)).is_empty());
    assert_eq!(names(&mux), ["a", "bb", "ccc"]);
}

#[test]
fn a_stopping_script_goes_with_its_exit_and_its_slot_is_used_again() {
    let mut mux = three();
    handle(&mut mux, Event::ConfigReloaded(config(&[("a", "run a"), ("ccc", "run c")])));
    assert_eq!(names(&mux), ["a", "ccc", "bb"]);
    handle(&mut mux, exited("bb", None, 0));
    assert_eq!(names(&mux), ["a", "ccc"]);
    let again = config(&[("a", "run a"), ("ccc", "run c"), ("e", "run e")]);
    assert_eq!(handle(&mut mux, Event::ConfigReloaded(again)), ["spawn 1 e run e 0"]);
}

#[test]
fn a_refused_configuration_is_logged() {
    let mut mux = three();
    handle(&mut mux, Event::ConfigError("line 3".to_string()));
    assert_eq!(log(&mux), ["config error: line 3"]);
    assert_eq!(mux.log[0].script_name, "");
}

#[test]
fn the_log_drops_its_oldest_lines() {
    let mut lines: VecDeque<LogEntry> = VecDeque::new();
    for i in 0..MAX_LOG_LINES + 3 {
        push_log(
            &mut lines,
            LogEntry {
                script_name: i.to_string(),
                formatted: styled_config_reload_line(),
                always_visible: true,
            },
        );
    }
    assert_eq!(lines.len(), 100_000);
    assert_eq!(lines[0].script_name, "3");
    assert_eq!(lines.back().unwrap().script_name, (MAX_LOG_LINES + 2).to_string());
}

#[test]
fn only_what_is_shown_is_drawn() {
    let mut mux = three();
    for i in 0..3 {
        handle(&mut mux, out("a", &format!("a{i}")));
        handle(&mut mux, out("bb", &format!("b{i}")));
    }
    handle(&mut mux, exited("a", Some(0), 0));
    handle(&mut mux, key('1'));
    assert_eq!(count_shown(&mux), 4);
    let shown: Vec<String> = visible_lines(&mux, 10).iter().map(text).collect();
    assert_eq!(shown, [" bb | b0", " bb | b1", " bb | b2", "  a | exited with code 0"]);
    let last: Vec<String> = visible_lines(&mux, 2).iter().map(text).collect();
    assert_eq!(last, [" bb | b2", "  a | exited with code 0"]);
    mux.scroll_offset = 1;
    let scrolled: Vec<String> = visible_lines(&mux, 2).iter().map(text).collect();
    assert_eq!(scrolled, [" bb | b1", " bb | b2"]);
    assert!(visible_lines(&mux, 0).is_empty());
}

#[test]
fn a_dialog_offers_what_can_be_chosen() {
    let mut mux = three();
    handle(&mut mux, exited("a", Some(5), 0));
    handle(&mut mux, restarting("bb", 0));
    let entries = dialog_entries(&mux, Dialog::Restart);
    let expected = [("a", "exited (5)"), ("bb", "restarting"), ("ccc", "running")];
    assert_eq!(entries.len(), 3);
    for (entry, (name, state)) in entries.iter().zip(expected) {
        assert_eq!((entry.0.as_str(), entry.1.as_str()), (name, state));
    }
    handle(&mut mux, exited("bb", None, 0));
    handle(&mut mux, Event::ConfigReloaded(config(&[("ccc", "run c"), ("bb", "run b")])));
    let entries = dialog_entries(&mux, Dialog::Restart);
    assert_eq!(entries[0], ("ccc".to_string(), "running".to_string()));
    assert_eq!(entries[1], ("bb".to_string(), "exited (signal)".to_string()));
    assert_eq!(entries.len(), 2);
    handle(&mut mux, key('r'));
    assert!(handle(&mut mux, key('3')).is_empty());
    assert!(dialog_entries(&mux, Dialog::Urls).is_empty());
}

#[test]
fn looking_scripts_up() {
    let mut mux = three();
    handle(&mut mux, Event::ConfigReloaded(config(&[("bb", "other")])));
    assert_eq!(names(&mux), ["bb", "a", "bb", "ccc"]);
    let name = "bb".to_string();
    assert_eq!(find_named(&mux.scripts, &name), Some(0));
    assert_eq!(find_live(&mux.scripts, &name), Some(0));
    assert_eq!(find_live(&mux.scripts, &"a".to_string()), None);
    assert_eq!(find_generation(&mux.scripts, &name, 0), Some(0));
    assert_eq!(find_generation(&mux.scripts, &name, 1), None);
    assert_eq!(free_slot(&mux.scripts), 4);
    assert_eq!(name_width(&mux.scripts), 3);
    assert_eq!(asked(&[spawn_supervisor(&mux.scripts[0])]), ["spawn 3 bb other 0"]);
    let views = script_views(&mux.scripts);
    assert_eq!(views.len(), 4);
    assert_eq!(views[3].name, "ccc");
    assert!(views[3].visible);
    assert_eq!(*views[3].run_state, RunState::Running);
}

/// Serves requests as the application does: slots with a name, a command, a generation and a
/// flag.
fn serve(slots: &mut HashMap<usize, (String, String, u64, bool)>, actions: Vec<Action>) {
    for action in actions {
        match action {
            Action::Stop { slot } => slots.get_mut(&slot).unwrap().3 = true,
            Action::Spawn { slot, name, cmd, generation } => {
                slots.insert(slot, (name, cmd, generation, false));
            }
            _ => {}
        }
    }
}

#[test]
fn every_script_has_its_supervisor() {
    let (mut mux, actions) =
        Mux::new(config(&[("a", "run a"), ("bb", "run b"), ("ccc", "run c")]));
    let mut slots = HashMap::new();
    serve(&mut slots, actions);
    let events = vec![
        key('r'),
        key('2'),
        Event::ConfigReloaded(config(&[("ccc", "new c"), ("a", "run a"), ("d", "run d")])),
        exited("bb", None, 1),
        key('r'),
        exited("ccc", None, 0),
        Event::ConfigReloaded(config(&[("e", "run e"), ("d", "run d")])),
        key('3'),
        Event::ConfigReloaded(config(&[("bb", "run b"), ("e", "run e"), ("d", "other")])),
        exited("d", Some(1), 0),
        key('q'),
        Event::ConfigReloaded(config(&[("z", "run z")])),
    ];
    for event in events {
        let (_, actions) = mux.handle_event(event, &[]);
        serve(&mut slots, actions);
        let mut taken = Vec::new();
        for (i, s) in mux.scripts.iter().enumerate() {
            let expected = (s.name.clone(), s.cmd.clone(), s.generation, s.stopping);
            assert_eq!(slots[&s.slot], expected);
            assert!(!taken.contains(&s.slot));
            taken.push(s.slot);
            assert!(mux.scripts[i..].iter().all(|later| !s.stopping || later.stopping));
            assert!(s.name.len() <= mux.name_width);
        }
    }
}

#[test]
fn the_number_of_a_script_is_its_key() {
    let many: Vec<String> = (0..9).map(|i| format!("s{i}")).collect();
    let scripts: Vec<(&str, &str)> = many.iter().map(|n| (n.as_str(), "run")).collect();
    let mut mux = Mux::new(config(&scripts)).0;
    for i in 0..9 {
        let spans = build_status_spans(&script_views(&mux.scripts));
        let number = spans[3 * i].content.chars().nth(2).unwrap();
        assert_eq!(spans[3 * i + 1].content, "ON");
        handle(&mut mux, key(number));
        let spans = build_status_spans(&script_views(&mux.scripts));
        assert_eq!(spans[3 * i + 1].content, "off");
    }
}

/// The rows of a terminal of this size, once the state is drawn.
fn picture(mux: &Mux, width: u16, height: u16) -> Vec<String> {
    let mut terminal = Terminal::new(TestBackend::new(width, height)).unwrap();
    let mut drawn = false;
    terminal.draw(|frame| drawn = draw(frame, mux, height as usize)).unwrap();
    assert!(drawn);
    let buf = terminal.backend().buffer();
    (0..height)
        .map(|y| {
            let row: String = (0..width).map(|x| buf[(x, y)].symbol()).collect();
            row.trim_end().to_string()
        })
        .collect()
}

#[test]
fn the_state_is_drawn() {
    let mut mux = three();
    for i in 0..5 {
        handle(&mut mux, out("a", &format!("line {i}")));
    }
    handle(&mut mux, key('2'));
    let rows = picture(&mux, 50, 4);
    assert_eq!(rows[..3], ["  a | line 2", "  a | line 3", "  a | line 4"]);
    assert_eq!(rows[3], " [1:a ON]  [2:bb off]  [3:ccc ON]");
    handle(&mut mux, key('r'));
    let rows = picture(&mux, 60, 12);
    assert!(rows.iter().any(|r| r.contains(" Restart Script ")));
    assert!(rows.iter().any(|r| r.contains("2) bb    running")));
    assert!(rows.iter().any(|r| r.contains("Press 1-9 to restart, Esc to cancel")));
}

#[test]
fn a_single_row_shows_nothing_of_the_log() {
    let mut mux = three();
    handle(&mut mux, out("a", "line"));
    assert_eq!(picture(&mux, 20, 1), [""]);
}

#[test]
fn a_state_that_cannot_be_drawn_leaves_the_screen_alone() {
    let long = format!("http://{}é", "x".repeat(42));
    let mut mux = Mux::new(with_urls(
        config(&[("a", "run a")]),
        &[("home", &format!("{long}{}", "y".repeat(9)))],
    ))
    .0;
    handle(&mut mux, key('o'));
    let mut terminal = Terminal::new(TestBackend::new(80, 12)).unwrap();
    let mut drawn = true;
    terminal.draw(|frame| drawn = draw(frame, &mux, 12)).unwrap();
    assert!(!drawn);
    assert!(terminal.backend().buffer().content.iter().all(|c| c.symbol() == " "));
}
