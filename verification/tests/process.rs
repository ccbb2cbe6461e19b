use std::sync::atomic::{AtomicBool, Ordering};
use std::sync::{Arc, Mutex};

use mux::config::{Config, ScriptConfig};
use mux::process::{
    child_pids, init_globals, process_group, read_stdin, register_pid, reload_event,
    shutdown_flag, trigger_shutdown, unregister_pid, watch_config, ChangeKind, ConfigWatch, Event,
    Globals, KeyCode, Reaction, TerminalInput, DEBOUNCE_NS,
};

#[test]
fn globals_are_set_once() {
    let mut globals = Globals::new();
    assert!(globals.shutdown.is_none());
    assert!(globals.child_pids.is_none());
    let flag = Arc::new(AtomicBool::new(false));
    let pids = Arc::new(Mutex::new(vec![7]));
    init_globals(&mut globals, flag.clone(), pids.clone());
    init_globals(&mut globals, Arc::new(AtomicBool::new(true)), Arc::new(Mutex::new(vec![])));
    assert!(Arc::ptr_eq(&shutdown_flag(&globals), &flag));
    assert!(Arc::ptr_eq(&child_pids(&globals), &pids));
    flag.store(true, Ordering::Relaxed);
    assert!(shutdown_flag(&globals).load(Ordering::Relaxed));
    assert_eq!(*child_pids(&globals).lock().unwrap(), vec![7]);
}

#[test]
fn signals_go_to_process_groups() {
    assert_eq!(process_group(1), -1);
    assert_eq!(process_group(42), -42);
    assert_eq!(process_group(i32::MAX as u32), -i32::MAX);
    assert_eq!(process_group(u32::MAX), 1);
    assert_eq!(trigger_shutdown(&vec![3, 5, 3]), vec![-3, -5, -3]);
    assert!(trigger_shutdown(&vec![]).is_empty());
}

#[test]
fn children_come_and_go() {
    let mut pids = vec![1, 2];
    register_pid(&mut pids, 9);
    assert_eq!(pids, vec![1, 2, 9]);
    unregister_pid(&mut pids, 2);
    assert_eq!(pids, vec![1, 9]);
    register_pid(&mut pids, 1);
    unregister_pid(&mut pids, 1);
    assert_eq!(pids, vec![9]);
    unregister_pid(&mut pids, 4);
    assert_eq!(pids, vec![9]);
}

#[test]
fn only_changes_to_the_file_itself_count() {
    let mut watch = ConfigWatch::new(0);
    let late = 10 * DEBOUNCE_NS;
    assert!(!watch_config(&mut watch, false, ChangeKind::Modify, late));
    assert!(!watch_config(&mut watch, true, ChangeKind::Other, late));
    assert_eq!(watch.last_reload_ns, 0);
    assert!(watch_config(&mut watch, true, ChangeKind::Create, late));
    assert_eq!(watch.last_reload_ns, late);
}

#[test]
fn reloads_are_half_a_second_apart() {
    let mut watch = ConfigWatch::new(1_000);
    assert!(!watch_config(&mut watch, true, ChangeKind::Modify, 0));
    assert!(!watch_config(&mut watch, true, ChangeKind::Modify, 500_000_999));
    assert!(watch_config(&mut watch, true, ChangeKind::Modify, 500_001_000));
    assert!(!watch_config(&mut watch, true, ChangeKind::Modify, 600_000_000));
    assert!(watch_config(&mut watch, true, ChangeKind::Modify, 1_000_001_000));
}

#[test]
fn a_reload_tells_the_configuration_or_why_there_is_none() {
    let scripts = vec![ScriptConfig { name: "a".to_string(), cmd: "b".to_string() }];
    match reload_event(Ok(Config { scripts, urls: None })) {
        Event::ConfigReloaded(c) => assert_eq!(c.scripts[0].name, "a"),
        _ => panic!("expected a configuration"),
    }
    match reload_event(Err("no".to_string())) {
        Event::ConfigError(e) => assert_eq!(e, "no"),
        _ => panic!("expected an error"),
    }
}

fn press(code: KeyCode, control: bool) -> TerminalInput {
    TerminalInput::Key { press: true, code, control }
}

#[test]
fn keys_are_passed_on_as_bytes() {
    let q = read_stdin(press(KeyCode::Char('q'), false));
    assert!(matches!(q, Reaction::Send(Event::Keypress(0x71))));
    let escape = read_stdin(press(KeyCode::Esc, false));
    assert!(matches!(escape, Reaction::Send(Event::Keypress(0x1b))));
    let wide = read_stdin(press(KeyCode::Char('\u{131}'), false));
    assert!(matches!(wide, Reaction::Send(Event::Keypress(0x31))));
    let x = read_stdin(press(KeyCode::Char('x'), true));
    assert!(matches!(x, Reaction::Send(Event::Keypress(0x78))));
    assert!(matches!(read_stdin(press(KeyCode::Other, false)), Reaction::Ignore));
}

#[test]
fn control_and_c_shut_down() {
    let shut = read_stdin(press(KeyCode::Char('c'), true));
    assert!(matches!(shut, Reaction::Shutdown(Event::Keypress(0x03))));
    let plain = read_stdin(press(KeyCode::Char('c'), false));
    assert!(matches!(plain, Reaction::Send(Event::Keypress(0x63))));
}

#[test]
fn other_input() {
    let held = TerminalInput::Key { press: false, code: KeyCode::Char('c'), control: true };
    assert!(matches!(read_stdin(held), Reaction::Ignore));
    let size = read_stdin(TerminalInput::Resize(80, 24));
    assert!(matches!(size, Reaction::Send(Event::Resize(80, 24))));
    assert!(matches!(read_stdin(TerminalInput::Other), Reaction::Ignore));
    assert!(matches!(read_stdin(TerminalInput::Failed), Reaction::End));
}
