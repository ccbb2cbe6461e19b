//! The model of the main loop: what every event does to the state.
use vstd::prelude::*;

use crate::config::{ConfigModel, ScriptConfigModel, UrlModel};
use crate::display;
use crate::display::SpanModel;
use crate::process::{EventModel, OutputModel};
use crate::reload;
use crate::script;
use crate::script::{ActionModel, ScriptModel};
use crate::seqs;
use crate::terminal::RunState;

verus! {

/// The log keeps no more lines than this.
pub const MAX_LOG_LINES: usize = 100_000;

/// The key `o`: pick an address to open.
pub const KEY_OPEN: u8 = 0x6f;

/// The key `r`: pick a script to restart.
pub const KEY_RESTART: u8 = 0x72;

/// The key `q`: shut down.
pub const KEY_QUIT: u8 = 0x71;

/// The key `1`, the first digit that stands for a position.
pub const KEY_ONE: u8 = 0x31;

/// The key `9`, the last digit that stands for a position.
pub const KEY_NINE: u8 = 0x39;

/// A dialog that lies over the log.
#[derive(Clone, Copy, Debug, PartialEq, Eq, Structural)]
pub enum Dialog {
    /// Pick an address to open.
    Urls,
    /// Pick a script to restart.
    Restart,
}

/// Whether the main loop goes on.
#[derive(Clone, Copy, Debug, PartialEq, Eq, Structural)]
pub enum LoopAction {
    Continue,
    Break,
}

/// The model of a line in the log.
pub struct LogModel {
    pub script_name: Seq<char>,
    pub formatted: Seq<SpanModel>,
    pub always_visible: bool,
}

/// The model of the state of the program.
pub struct MuxModel {
    pub scripts: Seq<ScriptModel>,
    pub urls: Seq<UrlModel>,
    pub log: Seq<LogModel>,
    pub name_width: nat,
    pub scroll_offset: usize,
    pub shutting_down: bool,
    pub exited_count: nat,
    pub dialog: Option<Dialog>,
    pub buffered: Seq<EventModel>,
}

/// The script for entry `i` at the start.
pub open spec fn initial_script(i: int, c: ScriptConfigModel) -> ScriptModel {
    ScriptModel {
        name: c.name,
        cmd: c.cmd,
        visible: true,
        run_state: RunState::Running,
        color: display::palette(i),
        slot: i as nat,
        stopping: false,
        generation: 0,
    }
}

/// The scripts at the start: those of the configuration, in its order.
pub open spec fn initial_scripts(config: Seq<ScriptConfigModel>) -> Seq<ScriptModel> {
    config.map(|i: int, c: ScriptConfigModel| initial_script(i, c))
}

/// The state at the start: everything runs and is shown, and the log is empty and scrolled to
/// its end.
pub open spec fn initial(config: ConfigModel) -> MuxModel {
    let scripts = initial_scripts(config.scripts);
    MuxModel {
        scripts,
        urls: config.urls,
        log: Seq::empty(),
        name_width: script::name_column(scripts),
        scroll_offset: usize::MAX,
        shutting_down: false,
        exited_count: 0,
        dialog: None,
        buffered: Seq::empty(),
    }
}

/// What an event leads to: the next state, the requests to the system, in order, and whether
/// the main loop goes on.
pub struct StepModel {
    pub mux: MuxModel,
    pub actions: Seq<ActionModel>,
    pub flow: LoopAction,
}

/// A step to `mux` that asks for nothing.
pub open spec fn quiet(mux: MuxModel) -> StepModel {
    StepModel { mux, actions: Seq::empty(), flow: LoopAction::Continue }
}

/// The log with one more line, without the oldest where there are too many.
pub open spec fn logged(log: Seq<LogModel>, entry: LogModel) -> Seq<LogModel> {
    let longer = log.push(entry);
    longer.skip(seqs::monus(longer.len() as int, MAX_LOG_LINES as int))
}

/// A line of the log that the program itself wrote.
pub open spec fn notice(formatted: Seq<SpanModel>) -> LogModel {
    LogModel { script_name: Seq::empty(), formatted, always_visible: true }
}

/// The position that a digit key stands for.
pub open spec fn key_position(b: u8) -> Option<int> {
    if KEY_ONE <= b <= KEY_NINE {
        Some(b - KEY_ONE)
    } else {
        None
    }
}

/// A line of output of the script `name`. Where there is no such script, it is dropped.
pub open spec fn output_step(
    m: MuxModel,
    name: Seq<char>,
    line: Seq<char>,
    is_stderr: bool,
) -> MuxModel {
    match seqs::first_where(m.scripts, script::named(name)) {
        Some(k) => {
            let s = m.scripts[k];
            let formatted = if is_stderr {
                display::stderr_line_model(s.name, s.color, line, m.name_width)
            } else {
                display::stdout_line_model(s.name, s.color, line, m.name_width)
            };
            MuxModel {
                log: logged(
                    m.log,
                    LogModel { script_name: name, formatted, always_visible: false },
                ),
                ..m
            }
        },
        None => m,
    }
}

/// The exit of a script, as far as the scripts and the log are concerned. The exit of another
/// generation is logged and changes no state; a script that is stopping goes.
pub open spec fn exit_noted(
    m: MuxModel,
    name: Seq<char>,
    code: Option<i32>,
    generation: u64,
) -> MuxModel {
    match seqs::first_where(m.scripts, script::named(name)) {
        Some(k) => {
            let s = m.scripts[k];
            let ended = if s.generation == generation {
                ScriptModel { run_state: RunState::Exited(code), ..s }
            } else {
                s
            };
            MuxModel {
                scripts: if s.stopping {
                    m.scripts.remove(k)
                } else {
                    m.scripts.update(k, ended)
                },
                log: logged(
                    m.log,
                    LogModel {
                        script_name: name,
                        formatted: display::exit_line_model(s.name, s.color, code, m.name_width),
                        always_visible: true,
                    },
                ),
                ..m
            }
        },
        None => m,
    }
}

/// The exit of a script. During a shutdown exits are counted, and the loop ends once there are
/// as many as scripts.
pub open spec fn exited_step(
    m: MuxModel,
    name: Seq<char>,
    code: Option<i32>,
    generation: u64,
) -> StepModel {
    let noted = exit_noted(m, name, code, generation);
    if noted.shutting_down {
        let count = noted.exited_count + 1;
        StepModel {
            mux: MuxModel { exited_count: count, ..noted },
            actions: Seq::empty(),
            flow: if count >= noted.scripts.len() {
                LoopAction::Break
            } else {
                LoopAction::Continue
            },
        }
    } else {
        quiet(noted)
    }
}

/// A supervisor waits before it starts its command again.
pub open spec fn restarting_step(m: MuxModel, name: Seq<char>, generation: u64) -> MuxModel {
    match seqs::first_where(m.scripts, script::named_in_generation(name, generation)) {
        Some(k) => MuxModel {
            scripts: m.scripts.update(
                k,
                ScriptModel { run_state: RunState::Restarting, ..m.scripts[k] },
            ),
            ..m
        },
        None => m,
    }
}

/// A supervisor starts its command again.
pub open spec fn restarted_step(m: MuxModel, name: Seq<char>, generation: u64) -> MuxModel {
    match seqs::first_where(m.scripts, script::named_in_generation(name, generation)) {
        Some(k) => MuxModel {
            scripts: m.scripts.update(
                k,
                ScriptModel { run_state: RunState::Running, ..m.scripts[k] },
            ),
            log: logged(
                m.log,
                LogModel {
                    script_name: name,
                    formatted: display::restart_line_model(
                        m.scripts[k].name,
                        m.scripts[k].color,
                        m.name_width,
                    ),
                    always_visible: true,
                },
            ),
            ..m
        },
        None => m,
    }
}

/// A new configuration takes effect, unless the program is shutting down.
pub open spec fn reload_step(m: MuxModel, config: ConfigModel) -> StepModel {
    if m.shutting_down {
        quiet(m)
    } else {
        let scripts = reload::reloaded(config.scripts, m.scripts);
        StepModel {
            mux: MuxModel {
                urls: config.urls,
                scripts,
                name_width: script::name_column(scripts),
                log: logged(m.log, notice(display::config_reload_line_model())),
                ..m
            },
            actions: reload::reload_actions(config.scripts, m.scripts),
            flow: LoopAction::Continue,
        }
    }
}

/// A key, with no dialog open. During a shutdown keys do nothing.
pub open spec fn key_step(m: MuxModel, b: u8) -> StepModel {
    if m.shutting_down {
        quiet(m)
    } else if b == KEY_OPEN {
        if m.urls.len() > 0 {
            quiet(MuxModel { dialog: Some(Dialog::Urls), ..m })
        } else {
            quiet(m)
        }
    } else if b == KEY_RESTART {
        if m.scripts.len() > 0 {
            quiet(MuxModel { dialog: Some(Dialog::Restart), ..m })
        } else {
            quiet(m)
        }
    } else if b == KEY_QUIT {
        StepModel {
            mux: MuxModel { shutting_down: true, ..m },
            actions: seq![ActionModel::TriggerShutdown],
            flow: LoopAction::Continue,
        }
    } else {
        match key_position(b) {
            Some(k) if k < m.scripts.len() => quiet(
                MuxModel {
                    scripts: m.scripts.update(
                        k,
                        ScriptModel { visible: !m.scripts[k].visible, ..m.scripts[k] },
                    ),
                    ..m
                },
            ),
            _ => quiet(m),
        }
    }
}

/// An event, with no dialog open.
pub open spec fn plain_step(m: MuxModel, e: EventModel) -> StepModel {
    match e {
        EventModel::Keypress(b) => key_step(m, b),
        EventModel::Output(OutputModel::Stdout { script_name, line }) => quiet(
            output_step(m, script_name, line, false),
        ),
        EventModel::Output(OutputModel::Stderr { script_name, line }) => quiet(
            output_step(m, script_name, line, true),
        ),
        EventModel::Output(OutputModel::Exited { script_name, code, generation }) => exited_step(
            m,
            script_name,
            code,
            generation,
        ),
        EventModel::Output(OutputModel::Restarting { script_name, generation }) => quiet(
            restarting_step(m, script_name, generation),
        ),
        EventModel::Output(OutputModel::Restarted { script_name, generation }) => quiet(
            restarted_step(m, script_name, generation),
        ),
        EventModel::ConfigReloaded(config) => reload_step(m, config),
        EventModel::ConfigError(msg) => quiet(
            MuxModel {
                log: logged(m.log, notice(display::config_error_line_model(msg))),
                ..m
            },
        ),
        EventModel::Resize(_, _) => quiet(m),
    }
}

/// What the shutdown flag was at its reading `i`. Where there is no such reading, it was not set.
pub open spec fn flag_at(flags: Seq<bool>, i: int) -> bool {
    0 <= i < flags.len() && flags[i]
}

/// The state once the shutdown flag was read.
pub open spec fn noted(m: MuxModel, flag: bool) -> MuxModel {
    MuxModel { shutting_down: m.shutting_down || flag, ..m }
}

/// An event, with no dialog open and a reading of the shutdown flag.
#[verifier::opaque]
pub open spec fn noted_step(m: MuxModel, e: EventModel, flag: bool) -> StepModel {
    plain_step(noted(m, flag), e)
}

/// The first `n` events that waited, one after the other, each with a reading of the shutdown
/// flag. Where one ends the loop, the rest are dropped.
pub open spec fn replayed(
    m: MuxModel,
    events: Seq<EventModel>,
    flags: Seq<bool>,
    n: int,
) -> StepModel
    decreases n,
{
    if n <= 0 {
        quiet(m)
    } else {
        let before = replayed(m, events, flags, n - 1);
        if before.flow is Break {
            before
        } else {
            let next = noted_step(before.mux, events[n - 1], flag_at(flags, n - 1));
            StepModel { actions: before.actions + next.actions, ..next }
        }
    }
}

/// All events that waited, one after the other.
pub open spec fn replay(m: MuxModel, events: Seq<EventModel>, flags: Seq<bool>) -> StepModel {
    replayed(m, events, flags, events.len() as int)
}

/// Events that tell of an exit.
pub open spec fn of_an_exit() -> spec_fn(EventModel) -> bool {
    |e: EventModel| e matches EventModel::Output(OutputModel::Exited { .. })
}

/// The number of exits that the events tell of.
pub open spec fn exits(events: Seq<EventModel>) -> nat {
    events.filter(of_an_exit()).len()
}

/// The script at `k` starts over under a supervisor of the next generation.
pub open spec fn restarted_by_hand(s: ScriptModel) -> ScriptModel {
    ScriptModel {
        generation: (s.generation + 1) as u64,
        run_state: RunState::Restarting,
        stopping: false,
        ..s
    }
}

/// The supervisor of the script at `k` is told to stop, and one of the next generation starts.
pub open spec fn restart_step(m: MuxModel, k: int) -> StepModel {
    let s = m.scripts[k];
    let next = restarted_by_hand(s);
    StepModel {
        mux: MuxModel { scripts: m.scripts.update(k, next), ..m },
        actions: seq![reload::stop_model(s), script::spawn_model(next)],
        flow: LoopAction::Continue,
    }
}

/// The choice of entry `k` in a dialog.
pub open spec fn choose_step(m: MuxModel, d: Dialog, k: int) -> StepModel {
    match d {
        Dialog::Urls => if k < m.urls.len() {
            StepModel {
                mux: m,
                actions: seq![ActionModel::OpenUrl(m.urls[k].url)],
                flow: LoopAction::Continue,
            }
        } else {
            quiet(m)
        },
        Dialog::Restart => if k < m.scripts.len() && !m.scripts[k].stopping {
            restart_step(m, k)
        } else {
            quiet(m)
        },
    }
}

/// The state with no dialog open and nothing that waits.
pub open spec fn closed(m: MuxModel) -> MuxModel {
    MuxModel { dialog: None, buffered: Seq::empty(), ..m }
}

/// The dialog closes, and the events that waited for that are handled, each with a reading of the
/// shutdown flag.
pub open spec fn dismiss_step(m: MuxModel, flags: Seq<bool>) -> StepModel {
    replay(closed(m), m.buffered, flags)
}

/// What the key `b` chooses in dialog `d`: the entry of a digit, and nothing else, nor anything
/// during a shutdown.
pub open spec fn chosen_step(m: MuxModel, d: Dialog, b: u8) -> StepModel {
    match key_position(b) {
        Some(k) if !m.shutting_down => choose_step(m, d, k),
        _ => quiet(m),
    }
}

/// An event, with dialog `d` open: a digit picks an entry, any key closes the dialog, and
/// everything else waits until it is closed. The main loop ends if an event that waited ends it.
/// The flags are the readings for the events that waited.
pub open spec fn dialog_step(
    m: MuxModel,
    d: Dialog,
    e: EventModel,
    flags: Seq<bool>,
) -> StepModel {
    match e {
        EventModel::Keypress(b) => {
            let chosen = chosen_step(m, d, b);
            let dismissed = dismiss_step(chosen.mux, flags);
            StepModel { actions: chosen.actions + dismissed.actions, ..dismissed }
        },
        _ => quiet(MuxModel { buffered: m.buffered.push(e), ..m }),
    }
}

/// The readings after the first.
pub open spec fn later(flags: Seq<bool>) -> Seq<bool> {
    if flags.len() == 0 {
        flags
    } else {
        flags.drop_first()
    }
}

/// An event, with the readings of the shutdown flag: the first for the event itself, the others
/// for the events that waited for it, one each.
pub open spec fn step(m: MuxModel, e: EventModel, flags: Seq<bool>) -> StepModel {
    let now = noted(m, flag_at(flags, 0));
    match now.dialog {
        Some(d) => dialog_step(now, d, e, later(flags)),
        None => plain_step(now, e),
    }
}

/// No key waits: keys are handled at once.
pub open spec fn no_key_waits(m: MuxModel) -> bool {
    forall|i: int| 0 <= i < m.buffered.len() ==> !(#[trigger] m.buffered[i] is Keypress)
}

/// The counter has room for the exits that the event can bring to count: its own, or those that
/// waited for the key that closes a dialog.
pub open spec fn exits_have_room(m: MuxModel, e: EventModel) -> bool {
    match m.dialog {
        None => of_an_exit()(e) ==> m.exited_count < usize::MAX,
        Some(_) => e is Keypress ==> m.exited_count + exits(m.buffered) <= usize::MAX,
    }
}

/// The generation of the script that the event restarts, if it restarts one, has room for the
/// next.
pub open spec fn generation_has_room(m: MuxModel, e: EventModel) -> bool {
    m.dialog == Some(Dialog::Restart) ==> (e matches EventModel::Keypress(b) ==> (key_position(
        b,
    ) matches Some(k) ==> (k < m.scripts.len() && !m.scripts[k].stopping
        ==> m.scripts[k].generation < u64::MAX)))
}

/// Some reading finds the shutdown flag set.
pub open spec fn some_flag(flags: Seq<bool>) -> bool {
    exists|i: int| #[trigger] flag_at(flags, i)
}

/// The counters have room for the event, with these readings of the shutdown flag.
pub open spec fn has_room(m: MuxModel, e: EventModel, flags: Seq<bool>) -> bool {
    &&& m.shutting_down || some_flag(flags) ==> exits_have_room(m, e)
    &&& !m.shutting_down && !flag_at(flags, 0) ==> generation_has_room(m, e)
}

/// Readings that agree lead to the same.
pub proof fn lemma_readings_agree(
    m: MuxModel,
    events: Seq<EventModel>,
    f: Seq<bool>,
    g: Seq<bool>,
    n: int,
)
    requires
        forall|i: int| 0 <= i < n ==> #[trigger] flag_at(f, i) == flag_at(g, i),
    ensures
        replayed(m, events, f, n) == replayed(m, events, g, n),
    decreases n,
{
    if n > 0 {
        lemma_readings_agree(m, events, f, g, n - 1);
        assert(flag_at(f, n - 1) == flag_at(g, n - 1));
    }
}

/// Once an event ends the loop, no other is handled.
pub proof fn lemma_end_stays(
    m: MuxModel,
    events: Seq<EventModel>,
    flags: Seq<bool>,
    k: int,
    n: int,
)
    requires
        k <= n,
        replayed(m, events, flags, k).flow is Break,
    ensures
        replayed(m, events, flags, n) == replayed(m, events, flags, k),
    decreases n - k,
{
    if k < n {
        lemma_end_stays(m, events, flags, k, n - 1);
    }
}

/// One more event tells of one more exit, or of none.
pub proof fn lemma_exits_take(events: Seq<EventModel>, n: int)
    requires
        0 <= n < events.len(),
    ensures
        exits(events.take(n + 1)) == exits(events.take(n)) + (if of_an_exit()(events[n]) {
            1nat
        } else {
            0
        }),
        exits(events.take(n + 1)) <= exits(events),
{
    seqs::lemma_filter_take(events, of_an_exit(), n);
    seqs::lemma_filter_parts(events, of_an_exit(), n + 1);
}

/// No event tells of no exit.
pub proof fn lemma_exits_none(events: Seq<EventModel>)
    ensures
        exits(events.take(0)) == 0,
{
    seqs::lemma_filter_none(events.take(0), of_an_exit());
}

} // verus!
