use mux::process::OutputLine;
use mux::supervise::{
    sleep_or_stop, supervise, watch_child, Effect, Next, Phase, Report, Supervisor, Watch,
    NAP_MS, RESTART_DELAY_MS,
};

const CLEAR: (bool, bool) = (false, false);
const STOP: (bool, bool) = (false, true);
const SHUTDOWN: (bool, bool) = (true, false);

fn flags(f: (bool, bool)) -> Report {
    Report::Flags { shutdown: f.0, stop: f.1 }
}

/// Effects in short.
fn told(effects: &[Effect]) -> Vec<String> {
    effects
        .iter()
        .map(|e| match e {
            Effect::Register(pid) => format!("+{pid}"),
            Effect::Unregister(pid) => format!("-{pid}"),
            Effect::Send(OutputLine::Stdout { script_name, line }) => {
                format!("{script_name} out {line}")
            }
            Effect::Send(OutputLine::Stderr { script_name, line }) => {
                format!("{script_name} err {line}")
            }
            Effect::Send(OutputLine::Exited { script_name, code, generation }) => {
                format!("{script_name} {generation} exited {code:?}")
            }
            Effect::Send(OutputLine::Restarting { script_name, generation }) => {
                format!("{script_name} {generation} restarting")
            }
            Effect::Send(OutputLine::Restarted { script_name, generation }) => {
                format!("{script_name} {generation} restarted")
            }
        })
        .collect()
}

fn turn(s: &mut Supervisor, report: Report) -> (Vec<String>, Next) {
    let (effects, next) = supervise(s, report);
    (told(&effects), next)
}

fn none() -> Vec<String> {
    vec![]
}

fn running(pid: u32) -> Supervisor {
    let mut s = Supervisor::new("cat".to_string(), 4);
    turn(&mut s, flags(CLEAR));
    turn(&mut s, Report::Launched(pid));
    turn(&mut s, flags(CLEAR));
    assert_eq!(s.phase, Phase::Running(pid));
    s
}

#[test]
fn a_command_is_started_again() {
    let mut s = Supervisor::new("cat".to_string(), 4);
    assert_eq!(turn(&mut s, flags(CLEAR)), (none(), Next::Launch));
    assert_eq!(
        turn(&mut s, Report::Launched(7)),
        (vec!["+7".to_string()], Next::ReadFlags)
    );
    assert_eq!(turn(&mut s, flags(CLEAR)), (none(), Next::AwaitChild(7)));
    assert_eq!(
        turn(&mut s, Report::ChildExited(Some(3))),
        (vec!["-7".to_string(), "cat 4 exited Some(3)".to_string()], Next::ReadFlags)
    );
    assert_eq!(
        turn(&mut s, flags(CLEAR)),
        (vec!["cat 4 restarting".to_string()], Next::Pause)
    );
    assert_eq!(
        turn(&mut s, flags(CLEAR)),
        (vec!["cat 4 restarted".to_string()], Next::ReadFlags)
    );
    assert_eq!(turn(&mut s, flags(CLEAR)), (none(), Next::Launch));
}

#[test]
fn a_failed_start_is_reported_and_tried_again() {
    let mut s = Supervisor::new("cat".to_string(), 0);
    turn(&mut s, flags(CLEAR));
    assert_eq!(
        turn(&mut s, Report::LaunchFailed("no sh".to_string())),
        (
            vec!["cat err failed to spawn: no sh".to_string(), "cat 0 exited None".to_string()],
            Next::ReadFlags
        )
    );
    assert_eq!(
        turn(&mut s, flags(SHUTDOWN)),
        (vec!["cat 0 restarting".to_string()], Next::Pause)
    );
    assert_eq!(turn(&mut s, flags(SHUTDOWN)), (none(), Next::Return));
    assert_eq!(s.phase, Phase::Done);
}

#[test]
fn a_stop_ends_a_supervisor_without_a_child() {
    let mut ready = Supervisor::new("cat".to_string(), 0);
    assert_eq!(turn(&mut ready, flags(STOP)), (none(), Next::Return));
    let mut failed = Supervisor::new("cat".to_string(), 0);
    turn(&mut failed, flags(CLEAR));
    turn(&mut failed, Report::LaunchFailed("no".to_string()));
    assert_eq!(turn(&mut failed, flags(STOP)), (none(), Next::Return));
    let mut ended = running(7);
    turn(&mut ended, Report::ChildExited(None));
    assert_eq!(turn(&mut ended, flags(STOP)), (none(), Next::Return));
    let mut waiting = running(7);
    turn(&mut waiting, Report::ChildExited(None));
    turn(&mut waiting, flags(CLEAR));
    assert_eq!(turn(&mut waiting, flags(STOP)), (none(), Next::Return));
}

#[test]
fn a_stop_during_the_start_interrupts_the_child() {
    let mut s = Supervisor::new("cat".to_string(), 2);
    turn(&mut s, flags(CLEAR));
    turn(&mut s, Report::Launched(9));
    assert_eq!(turn(&mut s, flags(STOP)), (none(), Next::InterruptChild(9)));
    assert_eq!(
        turn(&mut s, Report::ChildExited(Some(1))),
        (vec!["-9".to_string(), "cat 2 exited None".to_string()], Next::Return)
    );
}

#[test]
fn a_shutdown_ends_a_supervisor_between_children() {
    let mut ready = Supervisor::new("cat".to_string(), 0);
    assert_eq!(turn(&mut ready, flags(SHUTDOWN)), (none(), Next::Return));
    let mut ended = running(7);
    turn(&mut ended, Report::ChildExited(Some(0)));
    assert_eq!(turn(&mut ended, flags(SHUTDOWN)), (none(), Next::Return));
    let mut started = Supervisor::new("cat".to_string(), 0);
    turn(&mut started, flags(CLEAR));
    turn(&mut started, Report::Launched(9));
    assert_eq!(turn(&mut started, flags(SHUTDOWN)), (none(), Next::AwaitChild(9)));
}

#[test]
fn the_delay_is_made_of_naps() {
    let mut elapsed = 0;
    let mut naps = 0;
    while let Some(nap) = sleep_or_stop(&mut elapsed, RESTART_DELAY_MS, false, false) {
        assert_eq!(nap, NAP_MS);
        naps += 1;
    }
    assert_eq!(naps, 50);
    assert_eq!(elapsed, 5000);
    let mut odd = 0;
    assert_eq!(sleep_or_stop(&mut odd, 150, false, false), Some(100));
    assert_eq!(sleep_or_stop(&mut odd, 150, false, false), Some(100));
    assert_eq!(sleep_or_stop(&mut odd, 150, false, false), None);
    assert_eq!(odd, 200);
}

#[test]
fn a_flag_cuts_the_delay_short() {
    let mut elapsed = 300;
    assert_eq!(sleep_or_stop(&mut elapsed, RESTART_DELAY_MS, true, false), None);
    assert_eq!(sleep_or_stop(&mut elapsed, RESTART_DELAY_MS, false, true), None);
    assert_eq!(elapsed, 300);
}

#[test]
fn what_the_watcher_of_a_child_does() {
    assert_eq!(watch_child(false, false, false), Watch::Nap);
    assert_eq!(watch_child(false, true, false), Watch::Interrupt);
    assert_eq!(watch_child(true, true, true), Watch::Interrupt);
    assert_eq!(watch_child(true, false, false), Watch::Finish);
    assert_eq!(watch_child(false, false, true), Watch::Finish);
}

#[test]
fn exits_are_reported_once_for_each_start() {
    let mut s = Supervisor::new("cat".to_string(), 1);
    let mut lines = Vec::new();
    for round in 0..3 {
        lines.extend(turn(&mut s, flags(CLEAR)).0);
        if round == 1 {
            lines.extend(turn(&mut s, Report::LaunchFailed("x".to_string())).0);
        } else {
            lines.extend(turn(&mut s, Report::Launched(round)).0);
            lines.extend(turn(&mut s, flags(CLEAR)).0);
            lines.extend(turn(&mut s, Report::ChildExited(Some(0))).0);
        }
        lines.extend(turn(&mut s, flags(CLEAR)).0);
        lines.extend(turn(&mut s, flags(CLEAR)).0);
    }
    let words = ["exited", "restarting", "restarted"];
    for word in words {
        assert_eq!(lines.iter().filter(|l| l.contains(word)).count(), 3);
    }
    let told: Vec<&str> = lines
        .iter()
        .filter_map(|l| words.into_iter().find(|word| l.split(' ').any(|part| part == *word)))
        .collect();
    assert_eq!(told, [words, words, words].concat());
}
