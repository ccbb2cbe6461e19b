//! Supervisors and the events that they, the keyboard and the configuration file send.
use std::sync::atomic::AtomicBool;
use std::sync::{Arc, Mutex};

use vstd::prelude::*;

use crate::config;
use crate::config::{Config, ConfigModel};
use crate::laws;

verus! {

/// What the main loop is told.
pub enum Event {
    Output(OutputLine),
    Keypress(u8),
    Resize(u16, u16),
    ConfigReloaded(Config),
    ConfigError(String),
}

/// What a supervisor says of its script. The generation is the supervisor's own: a restart by
/// hand starts a supervisor of the next generation.
pub enum OutputLine {
    Stdout { script_name: String, line: String },
    Stderr { script_name: String, line: String },
    Exited { script_name: String, code: Option<i32>, generation: u64 },
    Restarting { script_name: String, generation: u64 },
    Restarted { script_name: String, generation: u64 },
}

/// The model of an [`Event`].
pub enum EventModel {
    Output(OutputModel),
    Keypress(u8),
    Resize(u16, u16),
    ConfigReloaded(ConfigModel),
    ConfigError(Seq<char>),
}

/// The model of an [`OutputLine`].
pub enum OutputModel {
    Stdout { script_name: Seq<char>, line: Seq<char> },
    Stderr { script_name: Seq<char>, line: Seq<char> },
    Exited { script_name: Seq<char>, code: Option<i32>, generation: u64 },
    Restarting { script_name: Seq<char>, generation: u64 },
    Restarted { script_name: Seq<char>, generation: u64 },
}

impl View for OutputLine {
    type V = OutputModel;

    open spec fn view(&self) -> OutputModel {
        match *self {
            OutputLine::Stdout { script_name, line } => OutputModel::Stdout {
                script_name: script_name@,
                line: line@,
            },
            OutputLine::Stderr { script_name, line } => OutputModel::Stderr {
                script_name: script_name@,
                line: line@,
            },
            OutputLine::Exited { script_name, code, generation } => OutputModel::Exited {
                script_name: script_name@,
                code,
                generation,
            },
            OutputLine::Restarting { script_name, generation } => OutputModel::Restarting {
                script_name: script_name@,
                generation,
            },
            OutputLine::Restarted { script_name, generation } => OutputModel::Restarted {
                script_name: script_name@,
                generation,
            },
        }
    }
}

impl View for Event {
    type V = EventModel;

    open spec fn view(&self) -> EventModel {
        match *self {
            Event::Output(line) => EventModel::Output(line@),
            Event::Keypress(b) => EventModel::Keypress(b),
            Event::Resize(w, h) => EventModel::Resize(w, h),
            Event::ConfigReloaded(c) => EventModel::ConfigReloaded(c@),
            Event::ConfigError(msg) => EventModel::ConfigError(msg@),
        }
    }
}

/// The lock of the standard library, carried around and not looked into.
#[verifier::external_type_specification]
#[verifier::external_body]
#[verifier::reject_recursive_types(T)]
pub struct ExMutex<T: ?Sized>(Mutex<T>);

/// The handles that the whole program shares: the shutdown flag and the list of the processes
/// that run. Each is set once.
pub struct Globals {
    pub shutdown: Option<Arc<AtomicBool>>,
    pub child_pids: Option<Arc<Mutex<Vec<u32>>>>,
}

impl Globals {
    /// Nothing is set yet.
    pub fn new() -> (r: Globals)
        ensures
            r.shutdown is None,
            r.child_pids is None,
    {
        Globals { shutdown: None, child_pids: None }
    }
}

/// Sets the handles that are not set yet; those that are stay as they are.
pub fn init_globals(globals: &mut Globals, shutdown: Arc<AtomicBool>, pids: Arc<Mutex<Vec<u32>>>)
    ensures
        final(globals).shutdown == match old(globals).shutdown {
            Some(set) => Some(set),
            None => Some(shutdown),
        },
        final(globals).child_pids == match old(globals).child_pids {
            Some(set) => Some(set),
            None => Some(pids),
        },
        final(globals).shutdown is Some,
        final(globals).child_pids is Some,
{
    if globals.shutdown.is_none() {
        globals.shutdown = Some(shutdown);
    }
    if globals.child_pids.is_none() {
        globals.child_pids = Some(pids);
    }
}

/// The shutdown flag.
pub fn shutdown_flag(globals: &Globals) -> (r: Arc<AtomicBool>)
    requires
        globals.shutdown is Some,
    ensures
        Some(r) == globals.shutdown,
{
    globals.shutdown.as_ref().unwrap().clone()
}

/// The list of the processes that run.
pub fn child_pids(globals: &Globals) -> (r: Arc<Mutex<Vec<u32>>>)
    requires
        globals.child_pids is Some,
    ensures
        Some(r) == globals.child_pids,
{
    globals.child_pids.as_ref().unwrap().clone()
}

/// Calls `AtomicBool::load` of the standard library, in relaxed order: what the flag holds. Other
/// threads set the flag, so nothing is known of the result.
#[verifier::external_body]
pub(crate) fn read_flag(flag: &AtomicBool) -> (r: bool) {
    flag.load(std::sync::atomic::Ordering::Relaxed)
}

/// The process number that has no process group: its negation does not fit.
pub const NO_GROUP: u32 = 0x8000_0000;

/// What a signal is sent to in order to reach the process group of `pid`: the negated number,
/// which wraps around past the largest signed one.
pub open spec fn group_model(pid: u32) -> int {
    if pid <= i32::MAX {
        -(pid as int)
    } else {
        0x1_0000_0000 - pid
    }
}

/// What a signal is sent to in order to reach the process group of `pid`.
pub fn process_group(pid: u32) -> (r: i32)
    requires
        pid != NO_GROUP,
    ensures
        r == group_model(pid),
{
    let signed: i32 = pid as i32;
    assert(pid <= 0x7fff_ffff ==> signed == pid) by (bit_vector)
        requires
            signed == pid as i32,
    ;
    assert(pid > 0x7fff_ffff ==> signed == pid - 0x1_0000_0000) by (bit_vector)
        requires
            signed == pid as i32,
    ;
    -signed
}

/// The process groups that a shutdown interrupts: those of all children.
pub fn trigger_shutdown(pids: &Vec<u32>) -> (r: Vec<i32>)
    requires
        forall|i: int| 0 <= i < pids.len() ==> #[trigger] pids[i] != NO_GROUP,
    ensures
        r.len() == pids.len(),
        forall|i: int| 0 <= i < pids.len() ==> #[trigger] r[i] == group_model(pids[i]),
{
    let mut groups: Vec<i32> = Vec::new();
    for i in 0..pids.len()
        invariant
            forall|j: int| 0 <= j < pids.len() ==> #[trigger] pids[j] != NO_GROUP,
            groups.len() == i,
            forall|j: int| 0 <= j < i ==> #[trigger] groups[j] == group_model(pids[j]),
    {
        groups.push(process_group(pids[i]));
    }
    groups
}

/// Enters a process in the list of those that run.
pub fn register_pid(pids: &mut Vec<u32>, pid: u32)
    ensures
        final(pids)@ == old(pids)@.push(pid),
{
    pids.push(pid);
}

/// Processes other than `pid`.
pub open spec fn other_than(pid: u32) -> spec_fn(u32) -> bool {
    |p: u32| p != pid
}

/// Takes a process off the list of those that run, wherever it stands.
pub fn unregister_pid(pids: &mut Vec<u32>, pid: u32)
    ensures
        final(pids)@ == old(pids)@.filter(other_than(pid)),
{
    let ghost all = pids@;
    let ghost p = other_than(pid);
    let mut kept: Vec<u32> = Vec::new();
    assert(all.take(0).filter(p) =~= Seq::empty()) by {
        reveal(Seq::filter);
    }
    for i in 0..pids.len()
        invariant
            all == pids@,
            p == other_than(pid),
            kept@ == all.take(i as int).filter(p),
    {
        proof {
            crate::seqs::lemma_filter_take(all, p, i as int);
        }
        if pids[i] != pid {
            kept.push(pids[i]);
        }
    }
    assert(all.take(pids.len() as int) =~= all);
    *pids = kept;
}

/// What happened to a file.
#[derive(Clone, Copy, Debug, PartialEq, Eq, Structural)]
pub enum ChangeKind {
    Create,
    Modify,
    /// Anything else.
    Other,
}

/// Changes that follow a reload within this time are not looked at.
pub const DEBOUNCE_NS: u128 = 500_000_000;

/// The watch on the configuration file. Times count from some fixed moment on.
pub struct ConfigWatch {
    pub last_reload_ns: u128,
}

impl ConfigWatch {
    /// The change at `now_ns` calls for a reload.
    pub open spec fn calls_for_reload(
        self,
        touches_config: bool,
        kind: ChangeKind,
        now_ns: u128,
    ) -> bool {
        &&& touches_config
        &&& kind is Modify || kind is Create
        &&& now_ns - self.last_reload_ns >= DEBOUNCE_NS
    }

    /// A watch that starts now, as after a reload.
    pub fn new(now_ns: u128) -> (r: ConfigWatch)
        ensures
            r.last_reload_ns == now_ns,
    {
        ConfigWatch { last_reload_ns: now_ns }
    }
}

/// One change in the directory of the configuration: whether to load the file again. It is
/// loaded if the change is to the file itself, writes or creates it, and comes long enough after
/// the last time.
pub fn watch_config(
    watch: &mut ConfigWatch,
    touches_config: bool,
    kind: ChangeKind,
    now_ns: u128,
) -> (r: bool)
    ensures
        r == old(watch).calls_for_reload(touches_config, kind, now_ns),
        *final(watch) == laws::watched(*old(watch), touches_config, kind, now_ns),
        final(watch).last_reload_ns == if r {
            now_ns
        } else {
            old(watch).last_reload_ns
        },
{
    if !touches_config {
        return false;
    }
    match kind {
        ChangeKind::Create | ChangeKind::Modify => {},
        ChangeKind::Other => {
            return false;
        },
    }
    if now_ns < watch.last_reload_ns || now_ns - watch.last_reload_ns < DEBOUNCE_NS {
        return false;
    }
    watch.last_reload_ns = now_ns;
    true
}

/// What the main loop is told of a reload.
pub open spec fn reload_event_model(loaded: Result<ConfigModel, Seq<char>>) -> EventModel {
    match loaded {
        Ok(c) => EventModel::ConfigReloaded(c),
        Err(e) => EventModel::ConfigError(e),
    }
}

/// What the main loop is told of a reload: the configuration, or why there is none.
pub fn reload_event(loaded: Result<Config, String>) -> (r: Event)
    ensures
        r@ == reload_event_model(config::outcome(loaded)),
{
    match loaded {
        Ok(c) => Event::ConfigReloaded(c),
        Err(e) => Event::ConfigError(e),
    }
}

/// A key on the keyboard.
#[derive(Clone, Copy, Debug, PartialEq, Eq)]
pub enum KeyCode {
    Char(char),
    Esc,
    /// Anything else.
    Other,
}

/// What the terminal says.
#[derive(Clone, Copy, Debug, PartialEq, Eq)]
pub enum TerminalInput {
    /// A key was pressed, or, where `press` is not set, held or released.
    Key { press: bool, code: KeyCode, control: bool },
    Resize(u16, u16),
    /// Anything else.
    Other,
    /// The terminal can no longer be read.
    Failed,
}

/// What the reader of the keyboard does.
pub enum Reaction {
    /// Nothing.
    Ignore,
    /// Tell the main loop.
    Send(Event),
    /// Trigger the shutdown, tell the main loop, and end.
    Shutdown(Event),
    /// End.
    End,
}

/// The model of a [`Reaction`].
pub enum ReactionModel {
    Ignore,
    Send(EventModel),
    Shutdown(EventModel),
    End,
}

impl View for Reaction {
    type V = ReactionModel;

    open spec fn view(&self) -> ReactionModel {
        match *self {
            Reaction::Ignore => ReactionModel::Ignore,
            Reaction::Send(event) => ReactionModel::Send(event@),
            Reaction::Shutdown(event) => ReactionModel::Shutdown(event@),
            Reaction::End => ReactionModel::End,
        }
    }
}

/// The key that stands for the interrupt of the terminal.
pub const KEY_INTERRUPT: u8 = 0x03;

/// The escape key.
pub const KEY_ESCAPE: u8 = 0x1b;

/// The byte that stands for a character: the lowest of its code.
pub open spec fn key_byte(c: char) -> u8 {
    ((c as u32) % 256) as u8
}

/// What the reader of the keyboard does about an input.
pub open spec fn reaction(input: TerminalInput) -> ReactionModel {
    match input {
        TerminalInput::Key { press: true, code: KeyCode::Char(c), control } => if control && c
            == 'c' {
            ReactionModel::Shutdown(EventModel::Keypress(KEY_INTERRUPT))
        } else {
            ReactionModel::Send(EventModel::Keypress(key_byte(c)))
        },
        TerminalInput::Key { press: true, code: KeyCode::Esc, control } => ReactionModel::Send(
            EventModel::Keypress(KEY_ESCAPE),
        ),
        TerminalInput::Key { .. } => ReactionModel::Ignore,
        TerminalInput::Resize(w, h) => ReactionModel::Send(EventModel::Resize(w, h)),
        TerminalInput::Other => ReactionModel::Ignore,
        TerminalInput::Failed => ReactionModel::End,
    }
}

/// What the reader of the keyboard does about an input. Only presses count; control and `c`
/// shut down, the other characters and the escape key are passed on as bytes.
pub fn read_stdin(input: TerminalInput) -> (r: Reaction)
    ensures
        r@ == reaction(input),
{
    match input {
        TerminalInput::Key { press, code, control } => {
            if !press {
                return Reaction::Ignore;
            }
            match code {
                KeyCode::Char(c) => {
                    if control && c == 'c' {
                        return Reaction::Shutdown(Event::Keypress(KEY_INTERRUPT));
                    }
                    let scalar: u32 = c as u32;
                    let byte: u8 = (scalar % 256) as u8;
                    Reaction::Send(Event::Keypress(byte))
                },
                KeyCode::Esc => Reaction::Send(Event::Keypress(KEY_ESCAPE)),
                KeyCode::Other => Reaction::Ignore,
            }
        },
        TerminalInput::Resize(w, h) => Reaction::Send(Event::Resize(w, h)),
        TerminalInput::Other => Reaction::Ignore,
        TerminalInput::Failed => Reaction::End,
    }
}

} // verus!
