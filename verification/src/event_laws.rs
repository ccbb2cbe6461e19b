//! What each event does, and what it leaves alone.
use vstd::prelude::*;

use crate::config;
use crate::config::ConfigModel;
use crate::display;
use crate::display::Color;
use crate::laws;
use crate::process::{EventModel, OutputModel};
use crate::reload;
use crate::reload_laws;
use crate::script;
use crate::script::{ActionModel, ScriptModel};
use crate::seqs;
use crate::step;
use crate::step::{Dialog, LogModel, MuxModel, StepModel};
use crate::terminal::RunState;
use crate::text;
use crate::text_laws;

verus! {

// ---------------------------------------------------------------------------
// Words for what events do
// ---------------------------------------------------------------------------

/// The script at `k` is the first of this name.
pub open spec fn is_first(scripts: Seq<ScriptModel>, name: Seq<char>, k: int) -> bool {
    &&& 0 <= k < scripts.len()
    &&& scripts[k].name == name
    &&& forall|j: int| 0 <= j < k ==> (#[trigger] scripts[j]).name != name
}

/// No script has this name.
pub open spec fn nobody(scripts: Seq<ScriptModel>, name: Seq<char>) -> bool {
    forall|j: int| 0 <= j < scripts.len() ==> (#[trigger] scripts[j]).name != name
}

/// The script at `k` is the first of this name and generation.
pub open spec fn is_first_of(
    scripts: Seq<ScriptModel>,
    name: Seq<char>,
    generation: u64,
    k: int,
) -> bool {
    &&& 0 <= k < scripts.len()
    &&& scripts[k].name == name
    &&& scripts[k].generation == generation
    &&& forall|j: int|
        0 <= j < k ==> (#[trigger] scripts[j]).name != name || scripts[j].generation != generation
}

/// No script has this name and generation.
pub open spec fn nobody_of(scripts: Seq<ScriptModel>, name: Seq<char>, generation: u64) -> bool {
    forall|j: int|
        0 <= j < scripts.len() ==> (#[trigger] scripts[j]).name != name || scripts[j].generation
            != generation
}

/// The state, with the shutdown that a reading of the flag tells of.
pub open spec fn seen(m: MuxModel, flags: Seq<bool>) -> MuxModel {
    MuxModel { shutting_down: m.shutting_down || (flags.len() > 0 && flags[0]), ..m }
}

/// The log has one more line at its end, and lost its oldest where it was full.
pub open spec fn grew_by(before: Seq<LogModel>, after: Seq<LogModel>, entry: LogModel) -> bool {
    &&& after.len() > 0
    &&& after.last() == entry
    &&& if before.len() < 100_000 {
        after.drop_last() == before
    } else {
        after.drop_last() == before.skip(before.len() - 99_999)
    }
}

/// The scripts are the same but for the one at `k`.
pub open spec fn same_but_at(a: Seq<ScriptModel>, b: Seq<ScriptModel>, k: int) -> bool {
    &&& a.len() == b.len()
    &&& forall|i: int| 0 <= i < a.len() && i != k ==> #[trigger] a[i] == b[i]
}

/// The scripts `after` are those `before` without the one at `k`.
pub open spec fn lost_one(before: Seq<ScriptModel>, after: Seq<ScriptModel>, k: int) -> bool {
    &&& after.len() + 1 == before.len()
    &&& forall|i: int| 0 <= i < k ==> #[trigger] after[i] == before[i]
    &&& forall|i: int| k <= i < after.len() ==> #[trigger] after[i] == before[i + 1]
}

/// The step asks for nothing, and the loop goes on.
pub open spec fn asks_nothing(s: StepModel) -> bool {
    s.actions.len() == 0 && s.flow is Continue
}

/// `first_where` finds the first script of a name.
pub proof fn lemma_first_named(scripts: Seq<ScriptModel>, name: Seq<char>)
    ensures
        match seqs::first_where(scripts, script::named(name)) {
            Some(k) => is_first(scripts, name, k),
            None => nobody(scripts, name),
        },
        forall|k: int| #[trigger]
            is_first(scripts, name, k) ==> seqs::first_where(scripts, script::named(name)) == Some(
                k,
            ),
        nobody(scripts, name) ==> seqs::first_where(scripts, script::named(name)) is None,
{
    let p = script::named(name);
    seqs::lemma_first_from(scripts, p, 0);
    match seqs::first_where(scripts, p) {
        Some(f) => {
            assert(p(scripts[f]));
            assert forall|j: int| 0 <= j < f implies (#[trigger] scripts[j]).name != name by {
                assert(!p(scripts[j]));
            }
            assert forall|k: int| #[trigger] is_first(scripts, name, k) implies f == k by {
                assert(p(scripts[k]));
                if f < k {
                    assert(scripts[f].name != name);
                }
            }
        },
        None => {
            assert forall|j: int| 0 <= j < scripts.len() implies (#[trigger] scripts[j]).name
                != name by {
                assert(!p(scripts[j]));
            }
        },
    }
}

proof fn lemma_first_of(scripts: Seq<ScriptModel>, name: Seq<char>, generation: u64)
    ensures
        forall|k: int| #[trigger]
            is_first_of(scripts, name, generation, k) ==> seqs::first_where(
                scripts,
                script::named_in_generation(name, generation),
            ) == Some(k),
        nobody_of(scripts, name, generation) ==> seqs::first_where(
            scripts,
            script::named_in_generation(name, generation),
        ) is None,
{
    let p = script::named_in_generation(name, generation);
    seqs::lemma_first_from(scripts, p, 0);
    if let Some(f) = seqs::first_where(scripts, p) {
        assert(p(scripts[f]));
        assert forall|k: int| #[trigger] is_first_of(scripts, name, generation, k) implies f
            == k by {
            assert(p(scripts[k]));
            if f < k {
                assert(scripts[f].name != name || scripts[f].generation != generation);
            }
        }
    } else {
        assert forall|k: int| !#[trigger] is_first_of(scripts, name, generation, k) by {
            if is_first_of(scripts, name, generation, k) {
                assert(p(scripts[k]));
            }
        }
    }
}

proof fn lemma_logged(log: Seq<LogModel>, entry: LogModel)
    ensures
        grew_by(log, step::logged(log, entry), entry),
{
    let after = step::logged(log, entry);
    if log.len() < 100_000 {
        assert(after.drop_last() =~= log);
    } else {
        assert(after.drop_last() =~= log.skip(log.len() - 99_999));
    }
}

// ---------------------------------------------------------------------------
// Output
// ---------------------------------------------------------------------------

/// A line of output of a script.
pub open spec fn output(name: Seq<char>, line: Seq<char>, is_stderr: bool) -> EventModel {
    EventModel::Output(
        if is_stderr {
            OutputModel::Stderr { script_name: name, line }
        } else {
            OutputModel::Stdout { script_name: name, line }
        },
    )
}

/// A line of output is logged under the name of its script and in its colour, as it was written;
/// standard output has no colour of its own, and error output is red. The line shows only while
/// the output of the script does. Nothing else changes.
pub proof fn output_is_logged(
    m: MuxModel,
    name: Seq<char>,
    line: Seq<char>,
    is_stderr: bool,
    k: int,
    flags: Seq<bool>,
)
    requires
        m.dialog is None,
        is_first(m.scripts, name, k),
    ensures
        ({
            let next = step::step(m, output(name, line, is_stderr), flags);
            let entry = next.mux.log.last();
            &&& asks_nothing(next)
            &&& next.mux == (MuxModel { log: next.mux.log, ..seen(m, flags) })
            &&& grew_by(m.log, next.mux.log, entry)
            &&& entry.script_name == name
            &&& !entry.always_visible
            &&& text_laws::is_log_line(
                entry.formatted,
                name,
                m.scripts[k].color,
                m.name_width,
                line,
                if is_stderr {
                    Some(Color::Red)
                } else {
                    None
                },
                false,
            )
        }),
{
    lemma_first_named(m.scripts, name);
    text_laws::only_error_output_is_red(name, m.scripts[k].color, line, m.name_width);
    let formatted = if is_stderr {
        display::stderr_line_model(name, m.scripts[k].color, line, m.name_width)
    } else {
        display::stdout_line_model(name, m.scripts[k].color, line, m.name_width)
    };
    lemma_logged(m.log, LogModel { script_name: name, formatted, always_visible: false });
}

/// The same holds of a line of output whatever else is going on, be a dialog open or not.
pub proof fn output_is_logged_in_any_state(
    m: MuxModel,
    name: Seq<char>,
    line: Seq<char>,
    is_stderr: bool,
    k: int,
)
    ensures
        nobody(m.scripts, name) ==> step::output_step(m, name, line, is_stderr) == m,
        is_first(m.scripts, name, k) ==> {
            let after = step::output_step(m, name, line, is_stderr);
            let entry = after.log.last();
            &&& after == (MuxModel { log: after.log, ..m })
            &&& grew_by(m.log, after.log, entry)
            &&& entry.script_name == name
            &&& !entry.always_visible
            &&& text_laws::is_log_line(
                entry.formatted,
                name,
                m.scripts[k].color,
                m.name_width,
                line,
                if is_stderr {
                    Some(Color::Red)
                } else {
                    None
                },
                false,
            )
        },
{
    lemma_first_named(m.scripts, name);
    if is_first(m.scripts, name, k) {
        text_laws::only_error_output_is_red(name, m.scripts[k].color, line, m.name_width);
        let formatted = if is_stderr {
            display::stderr_line_model(name, m.scripts[k].color, line, m.name_width)
        } else {
            display::stdout_line_model(name, m.scripts[k].color, line, m.name_width)
        };
        lemma_logged(m.log, LogModel { script_name: name, formatted, always_visible: false });
    }
}

/// Output of a script that there is not is dropped.
pub proof fn output_of_nobody_is_dropped(
    m: MuxModel,
    name: Seq<char>,
    line: Seq<char>,
    is_stderr: bool,
    flags: Seq<bool>,
)
    requires
        m.dialog is None,
        nobody(m.scripts, name),
    ensures
        asks_nothing(step::step(m, output(name, line, is_stderr), flags)),
        step::step(m, output(name, line, is_stderr), flags).mux == seen(m, flags),
{
    lemma_first_named(m.scripts, name);
}

// ---------------------------------------------------------------------------
// Exits and restarts
// ---------------------------------------------------------------------------

/// The exit of a script.
pub open spec fn exit_of(name: Seq<char>, code: Option<i32>, generation: u64) -> EventModel {
    EventModel::Output(OutputModel::Exited { script_name: name, code, generation })
}

/// An exit is logged, always visible. The script goes if it was told to stop; otherwise it stays,
/// and has exited if the exit is of its generation. During a shutdown the exit is counted, and
/// the loop ends once there were as many as there are scripts. Nothing else changes.
pub proof fn an_exit_is_noted(
    m: MuxModel,
    name: Seq<char>,
    code: Option<i32>,
    generation: u64,
    k: int,
    flags: Seq<bool>,
)
    requires
        m.dialog is None,
        is_first(m.scripts, name, k),
    ensures
        ({
            let now = seen(m, flags);
            let next = step::step(m, exit_of(name, code, generation), flags);
            let after = next.mux;
            let s = m.scripts[k];
            let entry = after.log.last();
            &&& next.actions.len() == 0
            &&& after == (MuxModel {
                scripts: after.scripts,
                log: after.log,
                exited_count: after.exited_count,
                ..now
            })
            &&& grew_by(m.log, after.log, entry)
            &&& entry.script_name == name
            &&& entry.always_visible
            &&& text_laws::is_log_line(
                entry.formatted,
                name,
                s.color,
                m.name_width,
                entry.formatted[2].content,
                None,
                true,
            )
            &&& text_laws::tells_exit(entry.formatted[2].content, code)
            &&& if s.stopping {
                lost_one(m.scripts, after.scripts, k)
            } else {
                &&& same_but_at(m.scripts, after.scripts, k)
                &&& s.generation == generation ==> after.scripts[k] == (ScriptModel {
                    run_state: RunState::Exited(code),
                    ..s
                })
                &&& s.generation != generation ==> after.scripts[k] == s
            }
            &&& after.exited_count == m.exited_count + (if now.shutting_down {
                1nat
            } else {
                0
            })
            &&& next.flow is Break <==> now.shutting_down && after.exited_count
                >= after.scripts.len()
        }),
{
    lemma_first_named(m.scripts, name);
    text_laws::an_exit_line_tells_the_code(name, m.scripts[k].color, code, m.name_width);
    lemma_logged(
        m.log,
        LogModel {
            script_name: name,
            formatted: display::exit_line_model(name, m.scripts[k].color, code, m.name_width),
            always_visible: true,
        },
    );
}

/// The exit of a script that there is not is counted during a shutdown, and nothing else.
pub proof fn an_exit_of_nobody_only_counts(
    m: MuxModel,
    name: Seq<char>,
    code: Option<i32>,
    generation: u64,
    flags: Seq<bool>,
)
    requires
        m.dialog is None,
        nobody(m.scripts, name),
    ensures
        ({
            let now = seen(m, flags);
            let next = step::step(m, exit_of(name, code, generation), flags);
            let count = m.exited_count + (if now.shutting_down {
                1nat
            } else {
                0
            });
            &&& next.actions.len() == 0
            &&& next.mux == (MuxModel { exited_count: count, ..now })
            &&& next.flow is Break <==> now.shutting_down && count >= m.scripts.len()
        }),
{
    lemma_first_named(m.scripts, name);
}

/// The delay before the next start shows in the state of the script of that generation, and
/// nowhere else.
pub proof fn a_delay_is_noted(
    m: MuxModel,
    name: Seq<char>,
    generation: u64,
    k: int,
    flags: Seq<bool>,
)
    requires
        m.dialog is None,
        is_first_of(m.scripts, name, generation, k),
    ensures
        ({
            let e = EventModel::Output(OutputModel::Restarting { script_name: name, generation });
            let next = step::step(m, e, flags);
            &&& asks_nothing(next)
            &&& next.mux == (MuxModel { scripts: next.mux.scripts, ..seen(m, flags) })
            &&& same_but_at(m.scripts, next.mux.scripts, k)
            &&& next.mux.scripts[k] == (ScriptModel {
                run_state: RunState::Restarting,
                ..m.scripts[k]
            })
        }),
{
    lemma_first_of(m.scripts, name, generation);
}

/// The next start is logged, always visible, and shows in the state of the script of that
/// generation. Nothing else changes.
pub proof fn a_restart_is_noted(
    m: MuxModel,
    name: Seq<char>,
    generation: u64,
    k: int,
    flags: Seq<bool>,
)
    requires
        m.dialog is None,
        is_first_of(m.scripts, name, generation, k),
    ensures
        ({
            let e = EventModel::Output(OutputModel::Restarted { script_name: name, generation });
            let next = step::step(m, e, flags);
            let entry = next.mux.log.last();
            &&& asks_nothing(next)
            &&& next.mux == (MuxModel {
                scripts: next.mux.scripts,
                log: next.mux.log,
                ..seen(m, flags)
            })
            &&& same_but_at(m.scripts, next.mux.scripts, k)
            &&& next.mux.scripts[k] == (ScriptModel {
                run_state: RunState::Running,
                ..m.scripts[k]
            })
            &&& grew_by(m.log, next.mux.log, entry)
            &&& entry.script_name == name
            &&& entry.always_visible
            &&& text_laws::is_log_line(
                entry.formatted,
                name,
                m.scripts[k].color,
                m.name_width,
                "restarting..."@,
                None,
                true,
            )
        }),
{
    lemma_first_of(m.scripts, name, generation);
    text_laws::a_restart_line_says_so(name, m.scripts[k].color, m.name_width);
    lemma_logged(
        m.log,
        LogModel {
            script_name: name,
            formatted: display::restart_line_model(name, m.scripts[k].color, m.name_width),
            always_visible: true,
        },
    );
}

/// What a supervisor says of restarts changes nothing where no script is of its generation.
pub proof fn reports_of_nobody_change_nothing(
    m: MuxModel,
    name: Seq<char>,
    generation: u64,
    flags: Seq<bool>,
)
    requires
        m.dialog is None,
        nobody_of(m.scripts, name, generation),
    ensures
        ({
            let delay = OutputModel::Restarting { script_name: name, generation };
            let restart = OutputModel::Restarted { script_name: name, generation };
            let a = step::step(m, EventModel::Output(delay), flags);
            let b = step::step(m, EventModel::Output(restart), flags);
            &&& asks_nothing(a) && a.mux == seen(m, flags)
            &&& asks_nothing(b) && b.mux == seen(m, flags)
        }),
{
    lemma_first_of(m.scripts, name, generation);
}

// ---------------------------------------------------------------------------
// The configuration
// ---------------------------------------------------------------------------

/// A reload takes over the addresses of the new configuration, and no others, and brings the
/// scripts in line with it. It is logged, always visible, and the column of names fits the
/// scripts that there are then. Nothing else changes.
pub proof fn a_reload_takes_over(m: MuxModel, c: ConfigModel, flags: Seq<bool>)
    requires
        m.dialog is None,
        !seen(m, flags).shutting_down,
    ensures
        ({
            let next = step::step(m, EventModel::ConfigReloaded(c), flags);
            let after = next.mux;
            let entry = after.log.last();
            &&& next.flow is Continue
            &&& after.urls == c.urls
            &&& after == (MuxModel {
                urls: after.urls,
                scripts: after.scripts,
                name_width: after.name_width,
                log: after.log,
                ..m
            })
            &&& grew_by(m.log, after.log, entry)
            &&& entry.always_visible
            &&& text_laws::is_notice(entry.formatted, "--- config reloaded ---"@, None)
            &&& seqs::distinct(config::names(c.scripts))
                && reload_laws::live_names_distinct(m.scripts) ==> reload_laws::in_line(
                c.scripts,
                after.scripts,
            )
            &&& after.scripts == reload::reloaded(c.scripts, m.scripts)
            &&& next.actions == reload::reload_actions(c.scripts, m.scripts)
            &&& forall|i: int|
                0 <= i < after.scripts.len() ==> text::byte_len((#[trigger] after.scripts[i]).name)
                    <= after.name_width
            &&& after.scripts.len() > 0 ==> exists|i: int|
                0 <= i < after.scripts.len() && text::byte_len(
                    (#[trigger] after.scripts[i]).name,
                ) == after.name_width
            &&& after.scripts.len() == 0 ==> after.name_width == 1
        }),
{
    let next = step::step(m, EventModel::ConfigReloaded(c), flags);
    text_laws::notices_say_what_happened(Seq::empty());
    lemma_logged(m.log, step::notice(display::config_reload_line_model()));
    text_laws::the_column_fits_the_longest_name(next.mux.scripts);
    if seqs::distinct(config::names(c.scripts)) && reload_laws::live_names_distinct(
        m.scripts,
    ) {
        reload_laws::reload_follows_the_configuration(c.scripts, m.scripts);
    }
}

/// During a shutdown a new configuration changes nothing.
pub proof fn a_shutdown_ignores_reloads(m: MuxModel, c: ConfigModel, flags: Seq<bool>)
    requires
        m.dialog is None,
        seen(m, flags).shutting_down,
    ensures
        asks_nothing(step::step(m, EventModel::ConfigReloaded(c), flags)),
        step::step(m, EventModel::ConfigReloaded(c), flags).mux == seen(m, flags),
{
}

/// After a reload, the key `o` offers the addresses of the new configuration, whatever there was
/// before, and a digit opens the one at its position.
pub proof fn a_reload_changes_what_can_be_opened(m: MuxModel, c: ConfigModel, i: int)
    requires
        m.dialog is None,
        m.buffered.len() == 0,
        !m.shutting_down,
        0 <= i < 9,
    ensures
        ({
            let none = Seq::<bool>::empty();
            let reloaded = step::step(m, EventModel::ConfigReloaded(c), none).mux;
            let asked = step::step(reloaded, EventModel::Keypress(0x6f), none);
            let chosen = step::step(asked.mux, EventModel::Keypress((0x31 + i) as u8), none);
            &&& asked.actions.len() == 0
            &&& c.urls.len() == 0 ==> asked.mux == reloaded
            &&& c.urls.len() > 0 ==> {
                &&& asked.mux == (MuxModel { dialog: Some(Dialog::Urls), ..reloaded })
                &&& chosen.mux == reloaded
                &&& i < c.urls.len() ==> chosen.actions == seq![
                    ActionModel::OpenUrl(c.urls[i].url),
                ]
                &&& i >= c.urls.len() ==> chosen.actions.len() == 0
            }
        }),
{
    let none = Seq::<bool>::empty();
    let reloaded = step::step(m, EventModel::ConfigReloaded(c), none).mux;
    let asked = step::step(reloaded, EventModel::Keypress(0x6f), none);
    let chosen = step::step(asked.mux, EventModel::Keypress((0x31 + i) as u8), none);
    assert(step::key_position((0x31 + i) as u8) == Some(i));
    assert(reloaded.buffered =~= Seq::empty());
    if c.urls.len() > 0 && i < c.urls.len() {
        assert(chosen.actions =~= seq![ActionModel::OpenUrl(c.urls[i].url)]);
    }
}

/// A configuration that is refused is reported, always visible, in red, and changes nothing else.
pub proof fn a_refusal_is_reported(m: MuxModel, msg: Seq<char>, flags: Seq<bool>)
    requires
        m.dialog is None,
    ensures
        ({
            let next = step::step(m, EventModel::ConfigError(msg), flags);
            let entry = next.mux.log.last();
            &&& asks_nothing(next)
            &&& next.mux == (MuxModel { log: next.mux.log, ..seen(m, flags) })
            &&& grew_by(m.log, next.mux.log, entry)
            &&& entry.always_visible
            &&& text_laws::is_notice(
                entry.formatted,
                "config error: "@ + msg,
                Some(Color::Red),
            )
        }),
{
    text_laws::notices_say_what_happened(msg);
    lemma_logged(m.log, step::notice(display::config_error_line_model(msg)));
}

/// A new size of the terminal changes nothing.
pub proof fn a_resize_changes_nothing(m: MuxModel, w: u16, h: u16, flags: Seq<bool>)
    requires
        m.dialog is None,
    ensures
        asks_nothing(step::step(m, EventModel::Resize(w, h), flags)),
        step::step(m, EventModel::Resize(w, h), flags).mux == seen(m, flags),
{
}

// ---------------------------------------------------------------------------
// Keys
// ---------------------------------------------------------------------------

/// The keys, with no dialog open and outside a shutdown. `o` asks for an address where there is
/// one, `r` for a script where there is one, and `q` shuts down. A digit hides and shows the
/// output of the script at its position. Each does nothing else, and other keys do nothing.
pub proof fn what_the_keys_do(m: MuxModel, b: u8, flags: Seq<bool>)
    requires
        m.dialog is None,
        !seen(m, flags).shutting_down,
    ensures
        ({
            let next = step::step(m, EventModel::Keypress(b), flags);
            let after = next.mux;
            &&& next.flow is Continue
            &&& if b == 0x6f {
                &&& after.dialog == (if m.urls.len() > 0 {
                    Some(Dialog::Urls)
                } else {
                    None
                })
                &&& after == (MuxModel { dialog: after.dialog, ..m })
                &&& next.actions.len() == 0
            } else if b == 0x72 {
                &&& after.dialog == (if m.scripts.len() > 0 {
                    Some(Dialog::Restart)
                } else {
                    None
                })
                &&& after == (MuxModel { dialog: after.dialog, ..m })
                &&& next.actions.len() == 0
            } else if b == 0x71 {
                &&& after == (MuxModel { shutting_down: true, ..m })
                &&& next.actions == seq![ActionModel::TriggerShutdown]
            } else if 0x31 <= b <= 0x39 && b - 0x31 < m.scripts.len() {
                let k = b - 0x31;
                &&& after == (MuxModel { scripts: after.scripts, ..m })
                &&& same_but_at(m.scripts, after.scripts, k)
                &&& after.scripts[k].visible != m.scripts[k].visible
                &&& after.scripts[k] == (ScriptModel {
                    visible: after.scripts[k].visible,
                    ..m.scripts[k]
                })
                &&& next.actions.len() == 0
            } else {
                after == m && next.actions.len() == 0
            }
        }),
{
}

/// During a shutdown keys do nothing.
pub proof fn a_shutdown_ignores_keys(m: MuxModel, b: u8, flags: Seq<bool>)
    requires
        m.dialog is None,
        seen(m, flags).shutting_down,
    ensures
        asks_nothing(step::step(m, EventModel::Keypress(b), flags)),
        step::step(m, EventModel::Keypress(b), flags).mux == seen(m, flags),
{
}

/// A reading of the shutdown flag that finds it set is as good as a shutdown that was known of.
pub proof fn the_flag_is_a_shutdown(m: MuxModel, e: EventModel, rest: Seq<bool>)
    ensures
        step::step(m, e, seq![true] + rest) == step::step(
            MuxModel { shutting_down: true, ..m },
            e,
            seq![false] + rest,
        ),
{
    assert((seq![true] + rest).drop_first() =~= rest);
    assert((seq![false] + rest).drop_first() =~= rest);
}

// ---------------------------------------------------------------------------
// Dialogs
// ---------------------------------------------------------------------------

/// While a dialog is open, everything but a key waits for it, behind what waits already, and does
/// nothing else.
pub proof fn events_wait_for_a_dialog(m: MuxModel, e: EventModel, flags: Seq<bool>)
    requires
        m.dialog is Some,
        !(e is Keypress),
    ensures
        ({
            let next = step::step(m, e, flags);
            &&& asks_nothing(next)
            &&& next.mux == (MuxModel { buffered: m.buffered.push(e), ..seen(m, flags) })
        }),
{
}

/// A key in a dialog does first what it does when nothing waits, and then what waited is handled
/// as if it came now: in order, each event with a reading of the shutdown flag, up to the first
/// that ends the loop.
pub proof fn a_choice_comes_first(m: MuxModel, b: u8, flags: Seq<bool>)
    requires
        m.dialog is Some,
        step::no_key_waits(m),
    ensures
        ({
            let key = EventModel::Keypress(b);
            let next = step::step(m, key, flags);
            let alone = step::step(MuxModel { buffered: Seq::empty(), ..m }, key, flags);
            let rest = laws::handled_to_the_end(
                alone.mux,
                m.buffered,
                if flags.len() == 0 {
                    flags
                } else {
                    flags.drop_first()
                },
                m.buffered.len() as int,
            );
            &&& alone.flow is Continue
            &&& alone.mux.dialog is None
            &&& alone.mux.buffered.len() == 0
            &&& next.mux == rest.mux
            &&& next.flow == rest.flow
            &&& next.actions == alone.actions + rest.actions
        }),
{
    let now = step::noted(m, step::flag_at(flags, 0));
    let bare = MuxModel { buffered: Seq::empty(), ..m };
    let bare_now = step::noted(bare, step::flag_at(flags, 0));
    let d = m.dialog->0;
    let chosen = step::chosen_step(now, d, b);
    let bare_chosen = step::chosen_step(bare_now, d, b);
    assert(step::closed(chosen.mux) == step::closed(bare_chosen.mux));
    assert(chosen.actions == bare_chosen.actions);
    let alone = step::step(bare, EventModel::Keypress(b), flags);
    assert(alone.actions =~= chosen.actions);
    assert(chosen.mux.buffered == m.buffered);
    laws::closing_a_dialog_handles_what_waited(chosen.mux, step::later(flags));
}

/// A key in the dialog for addresses opens the one at the position of the digit, where there is
/// one and outside a shutdown; the dialog closes, and nothing else changes.
pub proof fn a_digit_opens_its_address(m: MuxModel, b: u8, flags: Seq<bool>)
    requires
        m.dialog == Some(Dialog::Urls),
        m.buffered.len() == 0,
    ensures
        ({
            let next = step::step(m, EventModel::Keypress(b), flags);
            let k = b - 0x31;
            &&& next.flow is Continue
            &&& next.mux == (MuxModel { dialog: None, ..seen(m, flags) })
            &&& if !seen(m, flags).shutting_down && 0x31 <= b <= 0x39 && k < m.urls.len() {
                next.actions == seq![ActionModel::OpenUrl(m.urls[k].url)]
            } else {
                next.actions.len() == 0
            }
        }),
{
    let next = step::step(m, EventModel::Keypress(b), flags);
    let k = b - 0x31;
    assert(m.buffered =~= Seq::empty());
    if !seen(m, flags).shutting_down && 0x31 <= b <= 0x39 && k < m.urls.len() {
        assert(next.actions =~= seq![ActionModel::OpenUrl(m.urls[k].url)]);
    }
}

/// A key in the dialog for restarts restarts the script at the position of the digit, where there
/// is one that was not told to stop, and outside a shutdown: its supervisor is told to stop, and
/// one of the next generation starts in its slot, for the same command. Of the script nothing but
/// the generation and the state changes, and in particular it is shown if it was before. The
/// dialog closes, and nothing else changes.
pub proof fn a_digit_restarts_its_script(m: MuxModel, b: u8, flags: Seq<bool>)
    requires
        m.dialog == Some(Dialog::Restart),
        m.buffered.len() == 0,
        step::generation_has_room(m, EventModel::Keypress(b)),
    ensures
        ({
            let next = step::step(m, EventModel::Keypress(b), flags);
            let after = next.mux;
            let k = b - 0x31;
            &&& next.flow is Continue
            &&& after == (MuxModel { dialog: None, scripts: after.scripts, ..seen(m, flags) })
            &&& if !seen(m, flags).shutting_down && 0x31 <= b <= 0x39 && k < m.scripts.len()
                && !m.scripts[k].stopping {
                let old_one = m.scripts[k];
                let new_one = after.scripts[k];
                &&& same_but_at(m.scripts, after.scripts, k)
                &&& new_one.name == old_one.name
                &&& new_one.cmd == old_one.cmd
                &&& new_one.visible == old_one.visible
                &&& new_one.color == old_one.color
                &&& new_one.slot == old_one.slot
                &&& new_one.generation == old_one.generation + 1
                &&& new_one.run_state is Restarting
                &&& !new_one.stopping
                &&& next.actions == seq![
                    ActionModel::Stop { slot: old_one.slot },
                    ActionModel::Spawn {
                        slot: old_one.slot,
                        name: old_one.name,
                        cmd: old_one.cmd,
                        generation: (old_one.generation + 1) as u64,
                    },
                ]
            } else {
                after.scripts == m.scripts && next.actions.len() == 0
            }
        }),
{
    let next = step::step(m, EventModel::Keypress(b), flags);
    let k = b - 0x31;
    assert(m.buffered =~= Seq::empty());
    if !seen(m, flags).shutting_down && 0x31 <= b <= 0x39 && k < m.scripts.len()
        && !m.scripts[k].stopping {
        assert(step::key_position(b) == Some(k));
        assert(next.actions =~= step::restart_step(m, k).actions);
    }
}

/// A restart by hand, whichever script it is of, leaves all of it as it was but the generation,
/// the state and whether it is stopping, and leaves the other scripts alone.
pub proof fn a_restart_keeps_the_script(m: MuxModel, k: int)
    requires
        0 <= k < m.scripts.len(),
    ensures
        ({
            let after = step::restart_step(m, k).mux;
            &&& after == (MuxModel { scripts: after.scripts, ..m })
            &&& same_but_at(m.scripts, after.scripts, k)
            &&& after.scripts[k].name == m.scripts[k].name
            &&& after.scripts[k].cmd == m.scripts[k].cmd
            &&& after.scripts[k].visible == m.scripts[k].visible
            &&& after.scripts[k].color == m.scripts[k].color
            &&& after.scripts[k].slot == m.scripts[k].slot
        }),
{
}

// ---------------------------------------------------------------------------
// The start
// ---------------------------------------------------------------------------

/// At the start there is a script for every entry, in the order of the configuration: it runs, is
/// shown, has the colour of its position and a slot that no other has, and its supervisor is of
/// the first generation. The addresses are those of the configuration, and the log is empty.
pub proof fn the_start_follows_the_configuration(c: ConfigModel)
    ensures
        ({
            let m = step::initial(c);
            &&& m.scripts.len() == c.scripts.len()
            &&& forall|i: int|
                0 <= i < c.scripts.len() ==> {
                    let s = #[trigger] m.scripts[i];
                    &&& s.name == c.scripts[i].name
                    &&& s.cmd == c.scripts[i].cmd
                    &&& s.visible
                    &&& s.run_state is Running
                    &&& s.color == display::palette(i)
                    &&& !s.stopping
                    &&& s.generation == 0
                }
            &&& reload_laws::slots_distinct(m.scripts)
            &&& m.urls == c.urls
            &&& m.log.len() == 0
            &&& m.buffered.len() == 0
            &&& m.dialog is None
            &&& !m.shutting_down
            &&& m.exited_count == 0
            &&& m.scroll_offset == usize::MAX
            &&& forall|i: int|
                0 <= i < m.scripts.len() ==> text::byte_len((#[trigger] m.scripts[i]).name)
                    <= m.name_width
            &&& m.scripts.len() > 0 ==> exists|i: int|
                0 <= i < m.scripts.len() && text::byte_len((#[trigger] m.scripts[i]).name)
                    == m.name_width
            &&& m.scripts.len() == 0 ==> m.name_width == 1
        }),
{
    text_laws::the_column_fits_the_longest_name(step::initial(c).scripts);
}

/// The requests to start scripts are one for each, in order, with the name, the command, the
/// generation and the slot of the script.
pub proof fn every_script_is_started(scripts: Seq<ScriptModel>)
    ensures
        reload::spawns(scripts).len() == scripts.len(),
        forall|i: int|
            0 <= i < scripts.len() ==> #[trigger] reload::spawns(scripts)[i]
                == (ActionModel::Spawn {
                slot: scripts[i].slot,
                name: scripts[i].name,
                cmd: scripts[i].cmd,
                generation: scripts[i].generation,
            }),
{
}

} // verus!
