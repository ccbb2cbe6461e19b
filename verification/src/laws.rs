//! What holds of every run of the program.
use vstd::prelude::*;

use crate::config;
use crate::config::ConfigModel;
use crate::display;
use crate::draw;
use crate::process;
use crate::process::{ChangeKind, ConfigWatch, EventModel, OutputModel};
use crate::reload;
use crate::reload_laws;
use crate::screen;
use crate::screen::Rect;
use crate::script;
use crate::script::{ActionModel, ScriptModel};
use crate::seqs;
use crate::step;
use crate::step::{Dialog, LogModel, MuxModel, StepModel, MAX_LOG_LINES};
use crate::terminal;
use crate::terminal::RunState;
use crate::text;

verus! {

// ---------------------------------------------------------------------------
// What every state has
// ---------------------------------------------------------------------------

/// Scripts that were told to stop come after all others.
pub open spec fn live_first(scripts: Seq<ScriptModel>) -> bool {
    forall|i: int, j: int|
        0 <= i < j < scripts.len() && (#[trigger] scripts[i]).stopping ==> (
        #[trigger] scripts[j]).stopping
}

/// Every name fits the column of names.
pub open spec fn names_fit(scripts: Seq<ScriptModel>, name_width: nat) -> bool {
    forall|i: int|
        0 <= i < scripts.len() ==> text::byte_len((#[trigger] scripts[i]).name) <= name_width
}

/// A configuration that comes with the event is one that can run.
pub open spec fn can_come(e: EventModel) -> bool {
    e matches EventModel::ConfigReloaded(c) ==> config::acceptable(c)
}

/// What holds of every state that the program comes to: live scripts come first, no two of them
/// share a name, and no two scripts a slot; the names fit their column; the log is not too long
/// and stays scrolled to its end; and events wait only while a dialog is open, and none of them
/// is a key.
pub open spec fn sound(m: MuxModel) -> bool {
    &&& live_first(m.scripts)
    &&& reload_laws::live_names_distinct(m.scripts)
    &&& reload_laws::slots_distinct(m.scripts)
    &&& names_fit(m.scripts, m.name_width)
    &&& m.log.len() <= MAX_LOG_LINES
    &&& m.scroll_offset == usize::MAX
    &&& step::no_key_waits(m)
    &&& forall|i: int| 0 <= i < m.buffered.len() ==> can_come(#[trigger] m.buffered[i])
    &&& m.dialog is None ==> m.buffered.len() == 0
}

proof fn lemma_widest(scripts: Seq<ScriptModel>)
    ensures
        names_fit(scripts, script::widest_name(scripts)),
    decreases scripts.len(),
{
    if scripts.len() > 0 {
        let rest = scripts.drop_last();
        lemma_widest(rest);
        assert forall|i: int| 0 <= i < scripts.len() implies text::byte_len(
            (#[trigger] scripts[i]).name,
        ) <= script::widest_name(scripts) by {
            if i < rest.len() {
                assert(rest[i] == scripts[i]);
            }
        }
    }
}

/// Changes to a script that leave its name, its slot and whether it is stopping alone.
proof fn lemma_update_keeps(scripts: Seq<ScriptModel>, k: int, s: ScriptModel, width: nat)
    requires
        0 <= k < scripts.len(),
        s.name == scripts[k].name,
        s.slot == scripts[k].slot,
        s.stopping == scripts[k].stopping,
    ensures
        live_first(scripts) ==> live_first(scripts.update(k, s)),
        reload_laws::live_names_distinct(scripts) ==> reload_laws::live_names_distinct(
            scripts.update(k, s),
        ),
        reload_laws::slots_distinct(scripts) ==> reload_laws::slots_distinct(scripts.update(k, s)),
        names_fit(scripts, width) ==> names_fit(scripts.update(k, s), width),
{
    let u = scripts.update(k, s);
    assert forall|i: int| 0 <= i < u.len() implies (#[trigger] u[i]).name == scripts[i].name
        && u[i].slot == scripts[i].slot && u[i].stopping == scripts[i].stopping by {}
    if live_first(scripts) {
        assert forall|i: int, j: int| 0 <= i < j < u.len() && (#[trigger] u[i]).stopping implies (
        #[trigger] u[j]).stopping by {
            assert(scripts[i].stopping);
            assert(scripts[j].stopping);
        }
    }
    if reload_laws::live_names_distinct(scripts) {
        assert forall|i: int, j: int|
            0 <= i < j < u.len() && !(#[trigger] u[i]).stopping && !(
            #[trigger] u[j]).stopping implies u[i].name != u[j].name by {
            assert(!scripts[i].stopping && !scripts[j].stopping);
        }
    }
    if reload_laws::slots_distinct(scripts) {
        assert forall|i: int, j: int| 0 <= i < j < u.len() implies (#[trigger] u[i]).slot != (
        #[trigger] u[j]).slot by {
            assert(scripts[i].slot != scripts[j].slot);
        }
    }
    if names_fit(scripts, width) {
        assert forall|i: int| 0 <= i < u.len() implies text::byte_len((#[trigger] u[i]).name)
            <= width by {
            assert(text::byte_len(scripts[i].name) <= width);
        }
    }
}

proof fn lemma_remove_keeps(scripts: Seq<ScriptModel>, k: int, width: nat)
    requires
        0 <= k < scripts.len(),
        live_first(scripts),
        reload_laws::live_names_distinct(scripts),
        reload_laws::slots_distinct(scripts),
        names_fit(scripts, width),
    ensures
        live_first(scripts.remove(k)),
        reload_laws::live_names_distinct(scripts.remove(k)),
        reload_laws::slots_distinct(scripts.remove(k)),
        names_fit(scripts.remove(k), width),
{
    let u = scripts.remove(k);
    assert forall|i: int| 0 <= i < u.len() implies #[trigger] u[i] == scripts[if i < k {
        i
    } else {
        i + 1
    }] by {}
}

proof fn lemma_reload_keeps(m: MuxModel, c: ConfigModel)
    requires
        sound(m),
        config::acceptable(c),
    ensures
        sound(step::reload_step(m, c).mux),
{
    if !m.shutting_down {
        let r = reload::reloaded(c.scripts, m.scripts);
        reload_laws::reload_follows_the_configuration(c.scripts, m.scripts);
        reload_laws::reload_keeps_slots_apart(c.scripts, m.scripts);
        assert(live_first(r)) by {
            assert forall|i: int, j: int|
                0 <= i < j < r.len() && (#[trigger] r[i]).stopping implies (
            #[trigger] r[j]).stopping by {
                assert(i >= c.scripts.len());
            }
        }
        lemma_widest(r);
    }
}

proof fn lemma_plain_keeps(m: MuxModel, e: EventModel)
    requires
        sound(m),
        can_come(e),
        m.dialog is None,
    ensures
        sound(step::plain_step(m, e).mux),
        !(e is Keypress) ==> step::plain_step(m, e).mux.dialog is None,
{
    match e {
        EventModel::Keypress(b) => {
            match step::key_position(b) {
                Some(k) if k < m.scripts.len() => {
                    lemma_update_keeps(
                        m.scripts,
                        k,
                        ScriptModel { visible: !m.scripts[k].visible, ..m.scripts[k] },
                        m.name_width,
                    );
                },
                _ => {},
            }
        },
        EventModel::Output(OutputModel::Exited { script_name, code, generation }) => {
            let p = script::named(script_name);
            seqs::lemma_first_from(m.scripts, p, 0);
            if let Some(k) = seqs::first_where(m.scripts, p) {
                lemma_update_keeps(
                    m.scripts,
                    k,
                    ScriptModel { run_state: RunState::Exited(code), ..m.scripts[k] },
                    m.name_width,
                );
                lemma_update_keeps(m.scripts, k, m.scripts[k], m.name_width);
                lemma_remove_keeps(m.scripts, k, m.name_width);
            }
        },
        EventModel::Output(OutputModel::Restarting { script_name, generation }) => {
            let p = script::named_in_generation(script_name, generation);
            seqs::lemma_first_from(m.scripts, p, 0);
            if let Some(k) = seqs::first_where(m.scripts, p) {
                lemma_update_keeps(
                    m.scripts,
                    k,
                    ScriptModel { run_state: RunState::Restarting, ..m.scripts[k] },
                    m.name_width,
                );
            }
        },
        EventModel::Output(OutputModel::Restarted { script_name, generation }) => {
            let p = script::named_in_generation(script_name, generation);
            seqs::lemma_first_from(m.scripts, p, 0);
            if let Some(k) = seqs::first_where(m.scripts, p) {
                lemma_update_keeps(
                    m.scripts,
                    k,
                    ScriptModel { run_state: RunState::Running, ..m.scripts[k] },
                    m.name_width,
                );
            }
        },
        EventModel::ConfigReloaded(c) => {
            lemma_reload_keeps(m, c);
        },
        _ => {},
    }
}

/// What holds of the events that wait: none is a key, and a configuration among them can run.
pub open spec fn can_wait(events: Seq<EventModel>) -> bool {
    forall|i: int|
        0 <= i < events.len() ==> can_come(#[trigger] events[i]) && !(events[i] is Keypress)
}

/// The state is sound after the events that waited, and no dialog is open.
pub proof fn lemma_replay_keeps(
    m: MuxModel,
    events: Seq<EventModel>,
    flags: Seq<bool>,
    n: int,
)
    requires
        sound(m),
        m.dialog is None,
        can_wait(events),
        0 <= n <= events.len(),
    ensures
        sound(step::replayed(m, events, flags, n).mux),
        step::replayed(m, events, flags, n).mux.dialog is None,
    decreases n,
{
    if n > 0 {
        lemma_replay_keeps(m, events, flags, n - 1);
        let before = step::replayed(m, events, flags, n - 1);
        let flag = step::flag_at(flags, n - 1);
        reveal(step::noted_step);
        assert(can_come(events[n - 1]));
        lemma_plain_keeps(step::noted(before.mux, flag), events[n - 1]);
    }
}

/// The state at the start is sound.
pub proof fn starts_sound(c: ConfigModel)
    requires
        config::acceptable(c),
    ensures
        sound(step::initial(c)),
{
    let m = step::initial(c);
    lemma_widest(m.scripts);
    let all = config::names(c.scripts);
    assert forall|i: int, j: int|
        0 <= i < j < m.scripts.len() && !(#[trigger] m.scripts[i]).stopping && !(
        #[trigger] m.scripts[j]).stopping implies m.scripts[i].name != m.scripts[j].name by {
        assert(all[i] != all[j]);
    }
}

/// The state is sound after a choice in a dialog, once that is closed.
pub proof fn lemma_choice_keeps(m: MuxModel, d: Dialog, b: u8)
    requires
        sound(m),
    ensures
        sound(step::closed(step::chosen_step(m, d, b).mux)),
        step::chosen_step(m, d, b).mux.buffered == m.buffered,
{
    if let Some(k) = step::key_position(b) {
        if k < m.scripts.len() && !m.scripts[k].stopping {
            lemma_update_keeps(
                m.scripts,
                k,
                step::restarted_by_hand(m.scripts[k]),
                m.name_width,
            );
        }
    }
}

/// A configuration that a reload hands on is one that can run.
pub proof fn what_is_loaded_can_run(
    path: Seq<char>,
    file: Result<Result<ConfigModel, Seq<char>>, Seq<char>>,
)
    ensures
        can_come(process::reload_event_model(config::load_model(path, file))),
{
    if let Ok(Ok(c)) = file {
        config::accepted_iff_acceptable(c);
    }
}

/// Every event leads from a sound state to a sound one.
pub proof fn stays_sound(m: MuxModel, e: EventModel, flags: Seq<bool>)
    requires
        sound(m),
        can_come(e),
    ensures
        sound(step::step(m, e, flags).mux),
{
    let now = step::noted(m, step::flag_at(flags, 0));
    match now.dialog {
        None => lemma_plain_keeps(now, e),
        Some(d) => match e {
            EventModel::Keypress(b) => {
                lemma_choice_keeps(now, d, b);
                lemma_replay_keeps(
                    step::closed(step::chosen_step(now, d, b).mux),
                    m.buffered,
                    step::later(flags),
                    m.buffered.len() as int,
                );
            },
            _ => {},
        },
    }
}

/// The log is not too long, no key waits, and events wait only while a dialog is open.
pub open spec fn tidy(m: MuxModel) -> bool {
    &&& m.log.len() <= MAX_LOG_LINES
    &&& step::no_key_waits(m)
    &&& m.dialog is None ==> m.buffered.len() == 0
}

proof fn lemma_plain_tidy(m: MuxModel, e: EventModel)
    requires
        tidy(m),
        m.dialog is None,
    ensures
        tidy(step::plain_step(m, e).mux),
        !(e is Keypress) ==> step::plain_step(m, e).mux.dialog is None,
        m.shutting_down ==> step::plain_step(m, e).mux.shutting_down,
        step::plain_step(m, e).mux.exited_count >= m.exited_count,
{
}

proof fn lemma_replay_tidy(m: MuxModel, events: Seq<EventModel>, flags: Seq<bool>, n: int)
    requires
        tidy(m),
        m.dialog is None,
        forall|i: int| 0 <= i < events.len() ==> !(#[trigger] events[i] is Keypress),
        0 <= n <= events.len(),
    ensures
        tidy(step::replayed(m, events, flags, n).mux),
        step::replayed(m, events, flags, n).mux.dialog is None,
        m.shutting_down ==> step::replayed(m, events, flags, n).mux.shutting_down,
        step::replayed(m, events, flags, n).mux.exited_count >= m.exited_count,
    decreases n,
{
    if n > 0 {
        lemma_replay_tidy(m, events, flags, n - 1);
        let before = step::replayed(m, events, flags, n - 1);
        reveal(step::noted_step);
        assert(!(events[n - 1] is Keypress));
        lemma_plain_tidy(
            step::noted(before.mux, step::flag_at(flags, n - 1)),
            events[n - 1],
        );
    }
}

/// Whatever the event: the log does not grow too long, no key comes to wait, and nothing waits
/// without a dialog; a shutdown stays, and exits that were counted stay counted.
pub proof fn stays_tidy(m: MuxModel, e: EventModel, flags: Seq<bool>)
    requires
        tidy(m),
    ensures
        tidy(step::step(m, e, flags).mux),
        m.shutting_down ==> step::step(m, e, flags).mux.shutting_down,
        step::step(m, e, flags).mux.exited_count >= m.exited_count,
{
    let now = step::noted(m, step::flag_at(flags, 0));
    match now.dialog {
        None => lemma_plain_tidy(now, e),
        Some(d) => match e {
            EventModel::Keypress(b) => {
                lemma_replay_tidy(
                    step::closed(step::chosen_step(now, d, b).mux),
                    m.buffered,
                    step::later(flags),
                    m.buffered.len() as int,
                );
            },
            _ => {},
        },
    }
}

// ---------------------------------------------------------------------------
// Dialogs
// ---------------------------------------------------------------------------

/// Any key closes the dialog that is open, and nothing waits any longer.
pub proof fn any_key_closes_the_dialog(m: MuxModel, b: u8, flags: Seq<bool>)
    requires
        step::no_key_waits(m),
        m.dialog is Some,
    ensures
        step::step(m, EventModel::Keypress(b), flags).mux.dialog is None,
        step::step(m, EventModel::Keypress(b), flags).mux.buffered.len() == 0,
{
    let now = step::noted(m, step::flag_at(flags, 0));
    let chosen = step::chosen_step(now, m.dialog->0, b);
    closing_a_dialog_handles_what_waited(chosen.mux, step::later(flags));
}

proof fn lemma_live_are_a_prefix(scripts: Seq<ScriptModel>)
    requires
        live_first(scripts),
    ensures
        scripts.filter(draw::live()).len() <= scripts.len(),
        scripts.filter(draw::live()) == scripts.take(scripts.filter(draw::live()).len() as int),
        forall|k: int|
            scripts.filter(draw::live()).len() <= k < scripts.len() ==> (
            #[trigger] scripts[k]).stopping,
    decreases scripts.len(),
{
    reveal(Seq::filter);
    if scripts.len() > 0 {
        let rest = scripts.drop_last();
        if scripts.last().stopping {
            lemma_live_are_a_prefix(rest);
            assert(scripts.filter(draw::live()) == rest.filter(draw::live()));
            let n = rest.filter(draw::live()).len() as int;
            assert(rest.take(n) =~= scripts.take(n));
            assert forall|k: int| n <= k < scripts.len() implies (
            #[trigger] scripts[k]).stopping by {
                if k < rest.len() {
                    assert(rest[k].stopping);
                }
            }
        } else {
            assert forall|i: int| 0 <= i < scripts.len() implies draw::live()(
                #[trigger] scripts[i],
            ) by {
                if scripts[i].stopping && i < scripts.len() - 1 {
                    assert(scripts[scripts.len() - 1].stopping);
                }
            }
            seqs::lemma_filter_all(scripts, draw::live());
            assert(scripts.take(scripts.len() as int) =~= scripts);
        }
    } else {
        assert(scripts.take(0) =~= scripts);
    }
}

/// The dialog for restarts means what it shows: the entry at `k` names the script at `k`, and
/// choosing it restarts that script; past the entries nothing can be chosen.
pub proof fn restart_choice_is_the_entry_shown(m: MuxModel, k: int)
    requires
        live_first(m.scripts),
        0 <= k,
    ensures
        ({
            let entries = draw::dialog_model(m, Dialog::Restart).entries;
            if k < entries.len() {
                &&& k < m.scripts.len()
                &&& entries[k] == (
                    m.scripts[k].name,
                    draw::state_words(m.scripts[k].run_state),
                )
                &&& step::choose_step(m, Dialog::Restart, k) == step::restart_step(m, k)
            } else {
                step::choose_step(m, Dialog::Restart, k) == step::quiet(m)
            }
        }),
{
    lemma_live_are_a_prefix(m.scripts);
    let lives = m.scripts.filter(draw::live());
    let entries = draw::restart_entries(m.scripts);
    if k < lives.len() {
        seqs::lemma_filter_has(m.scripts, draw::live());
        assert(draw::live()(lives[k]));
        assert(lives[k] == m.scripts[k]);
    } else if k < m.scripts.len() {
        assert(m.scripts[k].stopping);
    }
}

/// Choosing an address opens the one that is shown at that place; past them nothing can be
/// chosen.
pub proof fn url_choice_is_the_entry_shown(m: MuxModel, k: int)
    requires
        0 <= k,
    ensures
        ({
            let entries = draw::dialog_model(m, Dialog::Urls).entries;
            step::choose_step(m, Dialog::Urls, k) == if k < entries.len() {
                StepModel { actions: seq![ActionModel::OpenUrl(entries[k].1)], ..step::quiet(m) }
            } else {
                step::quiet(m)
            }
        }),
{
}

/// The key that the dialog for restarts shows at an entry restarts the script that it names, and
/// no other; a key past the entries restarts nothing. Either way the dialog closes.
pub proof fn the_key_of_an_entry_restarts_its_script(m: MuxModel, k: int)
    requires
        m.dialog == Some(Dialog::Restart),
        !m.shutting_down,
        m.buffered.len() == 0,
        live_first(m.scripts),
        0 <= k < 9,
    ensures
        ({
            let entries = draw::dialog_model(m, Dialog::Restart).entries;
            let key = EventModel::Keypress((step::KEY_ONE + k) as u8);
            let next = step::step(m, key, Seq::empty());
            &&& next.flow is Continue
            &&& next.mux.dialog is None
            &&& if k < entries.len() {
                let s = next.mux.scripts[k];
                &&& k < m.scripts.len()
                &&& entries[k].0 == m.scripts[k].name
                &&& next.mux.scripts == m.scripts.update(k, s)
                &&& s == step::restarted_by_hand(m.scripts[k])
                &&& m.scripts[k].generation < u64::MAX ==> s.generation
                    == m.scripts[k].generation + 1
                &&& next.actions == seq![reload::stop_model(s), script::spawn_model(s)]
            } else {
                next.mux.scripts == m.scripts && next.actions == Seq::<ActionModel>::empty()
            }
        }),
{
    lemma_live_are_a_prefix(m.scripts);
    let lives = m.scripts.filter(draw::live());
    let key = EventModel::Keypress((step::KEY_ONE + k) as u8);
    let next = step::step(m, key, Seq::empty());
    let chosen = step::choose_step(m, Dialog::Restart, k);
    assert(step::key_position((step::KEY_ONE + k) as u8) == Some(k));
    assert(next.actions =~= chosen.actions);
    if k < lives.len() {
        seqs::lemma_filter_has(m.scripts, draw::live());
        assert(draw::live()(lives[k]));
        assert(lives[k] == m.scripts[k]);
        assert(next.mux.scripts =~= m.scripts.update(k, next.mux.scripts[k]));
    } else if k < m.scripts.len() {
        assert(m.scripts[k].stopping);
    }
}

/// The first `n` events one after the other, each with a reading of the shutdown flag of its own,
/// up to the first that ends the loop.
pub open spec fn handled_to_the_end(
    m: MuxModel,
    events: Seq<EventModel>,
    flags: Seq<bool>,
    n: int,
) -> StepModel
    decreases n,
{
    if n <= 0 {
        step::quiet(m)
    } else {
        let before = handled_to_the_end(m, events, flags, n - 1);
        if before.flow is Break {
            before
        } else {
            let reading = if n <= flags.len() {
                seq![flags[n - 1]]
            } else {
                Seq::empty()
            };
            let next = step::step(before.mux, events[n - 1], reading);
            StepModel { actions: before.actions + next.actions, ..next }
        }
    }
}

/// Closing a dialog handles the events that waited as if they came now, one after the other and
/// each with a reading of the shutdown flag, up to the first that ends the loop; then no dialog
/// is open and nothing waits.
pub proof fn closing_a_dialog_handles_what_waited(m: MuxModel, flags: Seq<bool>)
    requires
        step::no_key_waits(m),
    ensures
        step::dismiss_step(m, flags) == handled_to_the_end(
            step::closed(m),
            m.buffered,
            flags,
            m.buffered.len() as int,
        ),
        step::dismiss_step(m, flags).mux.dialog is None,
        step::dismiss_step(m, flags).mux.buffered.len() == 0,
{
    lemma_replay_is_handling(step::closed(m), m.buffered, flags, m.buffered.len() as int);
}

proof fn lemma_replay_is_handling(
    m: MuxModel,
    events: Seq<EventModel>,
    flags: Seq<bool>,
    n: int,
)
    requires
        m.dialog is None,
        m.buffered.len() == 0,
        forall|i: int| 0 <= i < events.len() ==> !(#[trigger] events[i] is Keypress),
        0 <= n <= events.len(),
    ensures
        step::replayed(m, events, flags, n) == handled_to_the_end(m, events, flags, n),
        step::replayed(m, events, flags, n).mux.dialog is None,
        step::replayed(m, events, flags, n).mux.buffered.len() == 0,
    decreases n,
{
    if n > 0 {
        lemma_replay_is_handling(m, events, flags, n - 1);
        assert(!(events[n - 1] is Keypress));
        reveal(step::noted_step);
    }
}

/// Events one after the other, while the shutdown flag is not set. The flow is that of the last.
pub open spec fn handled(m: MuxModel, events: Seq<EventModel>) -> StepModel
    decreases events.len(),
{
    if events.len() == 0 {
        step::quiet(m)
    } else {
        let before = handled(m, events.drop_last());
        let last = step::step(before.mux, events.last(), Seq::empty());
        StepModel { actions: before.actions + last.actions, ..last }
    }
}

proof fn lemma_all_wait(m: MuxModel, events: Seq<EventModel>)
    requires
        m.dialog is Some,
        forall|i: int| 0 <= i < events.len() ==> !(#[trigger] events[i] is Keypress),
    ensures
        handled(m, events).mux == (MuxModel { buffered: m.buffered + events, ..m }),
        handled(m, events).actions == Seq::<ActionModel>::empty(),
    decreases events.len(),
{
    if events.len() == 0 {
        assert(m.buffered + events =~= m.buffered);
    } else {
        let rest = events.drop_last();
        assert forall|i: int| 0 <= i < rest.len() implies !(#[trigger] rest[i] is Keypress) by {
            assert(rest[i] == events[i]);
        }
        lemma_all_wait(m, rest);
        assert(!(events[events.len() - 1] is Keypress));
        assert((m.buffered + rest).push(events.last()) =~= m.buffered + events);
        assert(handled(m, events).actions =~= Seq::<ActionModel>::empty());
    }
}

/// A dialog only delays: events that come while one is open, up to a key that picks nothing, do
/// what they would have done without it.
pub proof fn a_dialog_only_delays(m: MuxModel, events: Seq<EventModel>, b: u8)
    requires
        m.dialog is Some,
        m.buffered.len() == 0,
        forall|i: int| 0 <= i < events.len() ==> !(#[trigger] events[i] is Keypress),
        step::key_position(b) is None,
    ensures
        ({
            let delayed = handled(m, events.push(EventModel::Keypress(b)));
            let direct = step::replay(
                MuxModel { dialog: None, ..m },
                events,
                Seq::empty(),
            );
            &&& delayed.mux == direct.mux
            &&& delayed.actions == direct.actions
            &&& delayed.flow == direct.flow
        }),
{
    let all = events.push(EventModel::Keypress(b));
    assert(all.drop_last() =~= events);
    lemma_all_wait(m, events);
    assert(m.buffered + events =~= events);
    let waiting = handled(m, events).mux;
    let direct = step::replay(MuxModel { dialog: None, ..m }, events, Seq::empty());
    assert(m.buffered =~= Seq::empty());
    let last = step::step(waiting, EventModel::Keypress(b), Seq::empty());
    assert(last.mux == direct.mux);
    assert(last.actions =~= direct.actions);
    assert(handled(m, all).actions =~= direct.actions);
}

/// A digit pressed twice, with no dialog open, leaves everything as it was.
pub proof fn hiding_and_showing_cancel(m: MuxModel, b: u8)
    requires
        m.dialog is None,
        step::key_position(b) is Some,
    ensures
        ({
            let once = step::step(m, EventModel::Keypress(b), Seq::empty()).mux;
            step::step(once, EventModel::Keypress(b), Seq::empty()).mux == m
        }),
{
    let k = step::key_position(b)->0;
    let once = step::step(m, EventModel::Keypress(b), Seq::empty()).mux;
    let twice = step::step(once, EventModel::Keypress(b), Seq::empty()).mux;
    if !m.shutting_down && k < m.scripts.len() {
        assert(twice.scripts =~= m.scripts);
    }
}

// ---------------------------------------------------------------------------
// Shutdown
// ---------------------------------------------------------------------------

proof fn lemma_replay_shut(m: MuxModel, events: Seq<EventModel>, flags: Seq<bool>, n: int)
    requires
        m.shutting_down,
        0 <= n,
    ensures
        step::replayed(m, events, flags, n).mux.shutting_down,
        step::replayed(m, events, flags, n).actions == Seq::<ActionModel>::empty(),
    decreases n,
{
    if n > 0 {
        lemma_replay_shut(m, events, flags, n - 1);
        reveal(step::noted_step);
        assert(step::replayed(m, events, flags, n).actions =~= Seq::<ActionModel>::empty());
    }
}

/// A shutdown is final: once the flag was seen, the program stays in it and asks for nothing any
/// more.
pub proof fn a_shutdown_is_final(m: MuxModel, e: EventModel, flags: Seq<bool>)
    requires
        m.shutting_down || step::flag_at(flags, 0),
    ensures
        step::step(m, e, flags).mux.shutting_down,
        step::step(m, e, flags).actions == Seq::<ActionModel>::empty(),
{
    let now = step::noted(m, step::flag_at(flags, 0));
    if m.dialog is Some && e is Keypress {
        lemma_replay_shut(
            step::closed(now),
            m.buffered,
            step::later(flags),
            m.buffered.len() as int,
        );
        assert(step::step(m, e, flags).actions =~= Seq::<ActionModel>::empty());
    }
}

proof fn lemma_replay_ends(m: MuxModel, events: Seq<EventModel>, flags: Seq<bool>, n: int)
    requires
        0 <= n <= events.len(),
    ensures
        ({
            let next = step::replayed(m, events, flags, n);
            &&& m.exited_count <= next.mux.exited_count <= m.exited_count + step::exits(
                events.take(n),
            )
            &&& next.flow is Break ==> {
                &&& next.mux.shutting_down
                &&& next.mux.exited_count >= next.mux.scripts.len()
                &&& m.exited_count < next.mux.exited_count
            }
        }),
    decreases n,
{
    if n == 0 {
        step::lemma_exits_none(events);
    } else {
        lemma_replay_ends(m, events, flags, n - 1);
        step::lemma_exits_take(events, n - 1);
        reveal(step::noted_step);
    }
}

/// The loop ends only during a shutdown, on an exit that leaves as many counted as there are
/// scripts: the event itself, or one that waited for the key that closes a dialog.
pub proof fn the_loop_ends_only_after_the_exits(m: MuxModel, e: EventModel, flags: Seq<bool>)
    requires
        step::step(m, e, flags).flow is Break,
    ensures
        ({
            let after = step::step(m, e, flags).mux;
            &&& after.shutting_down
            &&& after.exited_count >= after.scripts.len()
            &&& match m.dialog {
                None => step::of_an_exit()(e) && after.exited_count == m.exited_count + 1,
                Some(_) => e is Keypress && m.exited_count < after.exited_count <= m.exited_count
                    + step::exits(m.buffered),
            }
        }),
{
    let now = step::noted(m, step::flag_at(flags, 0));
    if let Some(d) = m.dialog {
        if let EventModel::Keypress(b) = e {
            lemma_replay_ends(
                step::closed(step::chosen_step(now, d, b).mux),
                m.buffered,
                step::later(flags),
                m.buffered.len() as int,
            );
            assert(m.buffered.take(m.buffered.len() as int) =~= m.buffered);
        }
    }
}

proof fn lemma_not_yet(m: MuxModel, events: Seq<EventModel>, flags: Seq<bool>, n: int)
    requires
        m.shutting_down,
        0 <= n <= events.len(),
        step::replayed(m, events, flags, n).flow is Continue,
    ensures
        ({
            let next = step::replayed(m, events, flags, n).mux;
            &&& next.shutting_down
            &&& next.scripts.len() <= m.scripts.len()
            &&& next.exited_count == m.exited_count + step::exits(events.take(n))
            &&& step::exits(events.take(n)) > 0 ==> next.exited_count < m.scripts.len()
        }),
    decreases n,
{
    if n == 0 {
        step::lemma_exits_none(events);
    } else {
        lemma_not_yet(m, events, flags, n - 1);
        step::lemma_exits_take(events, n - 1);
        let before = step::replayed(m, events, flags, n - 1).mux;
        reveal(step::noted_step);
        lemma_fewer_scripts(before, events[n - 1]);
        assert(step::noted(before, step::flag_at(flags, n - 1)) == before);
    }
}

/// During a shutdown, with no dialog open, the loop ends with the exits, whatever else comes: at
/// the latest when there were as many as there were scripts.
pub proof fn the_loop_ends_with_the_exits(
    m: MuxModel,
    events: Seq<EventModel>,
    flags: Seq<bool>,
)
    requires
        m.shutting_down,
        step::exits(events) > 0,
        m.exited_count + step::exits(events) >= m.scripts.len(),
    ensures
        step::replay(m, events, flags).flow is Break,
{
    assert(events.take(events.len() as int) =~= events);
    if step::replay(m, events, flags).flow is Continue {
        lemma_not_yet(m, events, flags, events.len() as int);
    }
}

/// During a shutdown no script is added, and just the exits are counted; an exit that does not
/// end the loop leaves fewer counted than there are scripts.
proof fn lemma_fewer_scripts(m: MuxModel, e: EventModel)
    requires
        m.shutting_down,
    ensures
        ({
            let next = step::plain_step(m, e);
            &&& next.mux.shutting_down
            &&& next.mux.scripts.len() <= m.scripts.len()
            &&& next.mux.exited_count == m.exited_count + (if step::of_an_exit()(e) {
                1nat
            } else {
                0
            })
            &&& step::of_an_exit()(e) && next.flow is Continue ==> next.mux.exited_count
                < next.mux.scripts.len()
        }),
{
    match e {
        EventModel::Output(OutputModel::Exited { script_name, .. }) => {
            seqs::lemma_first_from(m.scripts, script::named(script_name), 0);
        },
        EventModel::Output(OutputModel::Restarting { script_name, generation }) => {
            let p = script::named_in_generation(script_name, generation);
            seqs::lemma_first_from(m.scripts, p, 0);
        },
        EventModel::Output(OutputModel::Restarted { script_name, generation }) => {
            let p = script::named_in_generation(script_name, generation);
            seqs::lemma_first_from(m.scripts, p, 0);
        },
        _ => {},
    }
}

/// During a shutdown, the key that closes a dialog ends the loop if the exits that waited for it
/// make up for the scripts that are left.
pub proof fn closing_a_dialog_ends_the_loop(m: MuxModel, b: u8, flags: Seq<bool>)
    requires
        m.dialog is Some,
        m.shutting_down || step::flag_at(flags, 0),
        step::exits(m.buffered) > 0,
        m.exited_count + step::exits(m.buffered) >= m.scripts.len(),
    ensures
        step::step(m, EventModel::Keypress(b), flags).flow is Break,
{
    let now = step::noted(m, step::flag_at(flags, 0));
    the_loop_ends_with_the_exits(step::closed(now), m.buffered, step::later(flags));
}

// ---------------------------------------------------------------------------
// Restarts by hand
// ---------------------------------------------------------------------------

/// A report on how a script is doing, of this name and generation.
pub open spec fn reports_on(e: OutputModel, name: Seq<char>, generation: u64) -> bool {
    match e {
        OutputModel::Exited { script_name, generation: g, .. } => script_name == name && g
            == generation,
        OutputModel::Restarting { script_name, generation: g } => script_name == name && g
            == generation,
        OutputModel::Restarted { script_name, generation: g } => script_name == name && g
            == generation,
        _ => false,
    }
}

/// A script that was restarted by hand is not touched by what a supervisor of an earlier
/// generation still reports.
pub proof fn late_reports_change_nothing(m: MuxModel, k: int, e: OutputModel, generation: u64)
    requires
        live_first(m.scripts),
        reload_laws::live_names_distinct(m.scripts),
        0 <= k < m.scripts.len(),
        !m.scripts[k].stopping,
        m.scripts[k].generation < u64::MAX,
        generation <= m.scripts[k].generation,
        reports_on(e, m.scripts[k].name, generation),
    ensures
        ({
            let restarted = step::restart_step(m, k).mux;
            let after = step::plain_step(restarted, EventModel::Output(e)).mux;
            k < after.scripts.len() && after.scripts[k] == restarted.scripts[k]
        }),
{
    let restarted = step::restart_step(m, k).mux;
    let all = restarted.scripts;
    let name = m.scripts[k].name;
    seqs::lemma_first_from(all, script::named_in_generation(name, generation), 0);
    let p = script::named(name);
    seqs::lemma_first_from(all, p, 0);
    assert(p(all[k]));
    let first = seqs::first_where(all, p)->0;
    if first < k {
        assert(p(all[first]));
        assert(!m.scripts[first].stopping);
    }
}

/// A restart by hand brings the next generation, whose supervisor runs the same command.
pub proof fn a_restart_is_the_next_generation(m: MuxModel, k: int)
    requires
        0 <= k < m.scripts.len(),
        m.scripts[k].generation < u64::MAX,
    ensures
        ({
            let s = step::restart_step(m, k).mux.scripts[k];
            &&& s.generation == m.scripts[k].generation + 1
            &&& s.run_state is Restarting
            &&& !s.stopping
            &&& step::restart_step(m, k).actions == seq![
                ActionModel::Stop { slot: s.slot },
                ActionModel::Spawn {
                    slot: s.slot,
                    name: m.scripts[k].name,
                    cmd: m.scripts[k].cmd,
                    generation: s.generation,
                },
            ]
        }),
{
}

/// A script that was told to stop goes with its exit, and no other does, unless a script of the
/// same name stands before it.
pub proof fn a_stopping_script_goes_with_its_exit(
    m: MuxModel,
    k: int,
    code: Option<i32>,
    generation: u64,
)
    requires
        0 <= k < m.scripts.len(),
        m.scripts[k].stopping,
        forall|i: int| 0 <= i < k ==> (#[trigger] m.scripts[i]).name != m.scripts[k].name,
    ensures
        step::exited_step(m, m.scripts[k].name, code, generation).mux.scripts == m.scripts.remove(
            k,
        ),
{
    let p = script::named(m.scripts[k].name);
    seqs::lemma_first_from(m.scripts, p, 0);
    assert(p(m.scripts[k]));
}

// ---------------------------------------------------------------------------
// The log
// ---------------------------------------------------------------------------

/// The log keeps the newest lines, in their order, and no more than it may.
pub proof fn the_log_keeps_the_newest(log: Seq<LogModel>, entry: LogModel)
    requires
        log.len() <= MAX_LOG_LINES,
    ensures
        step::logged(log, entry).len() == seqs::least(
            log.len() as int + 1,
            MAX_LOG_LINES as int,
        ),
        step::logged(log, entry).last() == entry,
        step::logged(log, entry).is_suffix_of(log.push(entry)),
{
    let kept = step::logged(log, entry);
    let longer = log.push(entry);
    assert(longer.skip(longer.len() - kept.len()) =~= kept);
}

/// The lines that are drawn are ones that show, the last ones, as many as there is room for.
pub proof fn the_end_of_the_log_shows(m: MuxModel, height: int)
    requires
        m.log.len() <= MAX_LOG_LINES,
        m.scroll_offset == usize::MAX,
        0 <= height,
    ensures
        ({
            let all = draw::shown_log(m);
            let drawn = draw::window(m, height);
            &&& drawn.len() == seqs::least(height, all.len() as int)
            &&& drawn == all.skip(all.len() - drawn.len())
        }),
        forall|i: int|
            0 <= i < draw::window(m, height).len() ==> draw::shown(m.scripts)(
                #[trigger] draw::window(m, height)[i],
            ),
{
    let all = draw::shown_log(m);
    lemma_filter_is_shorter(m.log, draw::shown(m.scripts));
    seqs::lemma_filter_has(m.log, draw::shown(m.scripts));
    let drawn = draw::window(m, height);
    assert(drawn =~= all.skip(all.len() - drawn.len()));
    assert forall|i: int| 0 <= i < drawn.len() implies draw::shown(m.scripts)(
        #[trigger] drawn[i],
    ) by {
        assert(drawn[i] == all[all.len() - drawn.len() + i]);
    }
}

proof fn lemma_filter_is_shorter<T>(s: Seq<T>, p: spec_fn(T) -> bool)
    ensures
        s.filter(p).len() <= s.len(),
    decreases s.len(),
{
    reveal(Seq::filter);
    if s.len() > 0 {
        lemma_filter_is_shorter(s.drop_last(), p);
    }
}

/// A log that is scrolled to its end or past it shows its last line in the last row, or all of it
/// where it is shorter.
pub proof fn past_the_end_the_end_shows(total: int, height: int, scroll_offset: int)
    requires
        0 <= total,
        0 <= height,
        scroll_offset >= seqs::monus(total, height),
    ensures
        ({
            let first = terminal::first_shown(total, height, scroll_offset);
            if total <= height {
                first == 0
            } else {
                first + height == total
            }
        }),
{
}

/// On a terminal of two rows or more, the lines that are drawn are no more than the log area has
/// rows, and they are drawn from its top.
pub proof fn the_log_fits_its_area(m: MuxModel, area: Rect)
    requires
        area.height >= 2,
    ensures
        ({
            let picture = draw::picture(m, area.height as int);
            let upper = screen::split_model(area).0;
            &&& picture.log_lines.len() <= upper.height
            &&& terminal::log_scroll(picture, upper.height) == 0
        }),
{
}

proof fn lemma_chars_and_bytes(s: Seq<char>)
    ensures
        s.len() <= text::byte_len(s),
    decreases s.len(),
{
    if s.len() > 0 {
        lemma_chars_and_bytes(s.drop_first());
    }
}

/// In every line that is logged for a script, the name takes the whole column of names and no
/// more, so that the separators stand below each other.
pub proof fn separators_stand_below_each_other(m: MuxModel, k: int, content: display::SpanModel)
    requires
        names_fit(m.scripts, m.name_width),
        0 <= k < m.scripts.len(),
    ensures
        display::log_line_model(
            m.scripts[k].name,
            m.scripts[k].color,
            m.name_width,
            content,
        )[0].content.len() == m.name_width,
{
    lemma_chars_and_bytes(m.scripts[k].name);
}

// ---------------------------------------------------------------------------
// Keys and geometry
// ---------------------------------------------------------------------------

/// The number that the status bar and the dialogs show for a position is the key for it.
pub proof fn the_number_shown_is_the_key(i: int)
    requires
        0 <= i < 9,
    ensures
        text::decimal(i + 1).len() == 1,
        step::key_position(process::key_byte(text::decimal(i + 1)[0])) == Some(i),
{
    let c = text::digit((i + 1) as nat);
    assert(text::decimal(i + 1) =~= seq![c]);
    assert(c as u32 == 49 + i);
}

/// A rectangle that is centred lies in the area, and the room on its two sides, and above and
/// below it, differs by one at most.
pub proof fn the_middle_is_the_middle(width: u16, height: u16, area: Rect)
    requires
        area.in_range(),
    ensures
        ({
            let r = terminal::centered(width, height, area);
            let left = r.x - area.x;
            let right = area.x + area.width - (r.x + r.width);
            let above = r.y - area.y;
            let below = area.y + area.height - (r.y + r.height);
            &&& r.inside(area)
            &&& 0 <= left <= right <= left + 1
            &&& 0 <= above <= below <= above + 1
        }),
{
}

// ---------------------------------------------------------------------------
// The configuration file and the children
// ---------------------------------------------------------------------------

/// What the watch remembers after a change.
pub open spec fn watched(
    watch: ConfigWatch,
    touches_config: bool,
    kind: ChangeKind,
    now_ns: u128,
) -> ConfigWatch {
    if watch.calls_for_reload(touches_config, kind, now_ns) {
        ConfigWatch { last_reload_ns: now_ns }
    } else {
        watch
    }
}

/// The times of the reloads that a series of changes calls for.
pub open spec fn reload_times(
    watch: ConfigWatch,
    changes: Seq<(bool, ChangeKind, u128)>,
) -> Seq<u128>
    decreases changes.len(),
{
    if changes.len() == 0 {
        Seq::empty()
    } else {
        let (touches_config, kind, now_ns) = changes[0];
        let rest = reload_times(
            watched(watch, touches_config, kind, now_ns),
            changes.drop_first(),
        );
        if watch.calls_for_reload(touches_config, kind, now_ns) {
            seq![now_ns] + rest
        } else {
            rest
        }
    }
}

/// However many changes there are, the file is loaded again only when half a second has passed
/// since the watch began, and since the last time.
pub proof fn reloads_are_apart(watch: ConfigWatch, changes: Seq<(bool, ChangeKind, u128)>)
    ensures
        ({
            let times = reload_times(watch, changes);
            &&& times.len() > 0 ==> times[0] - watch.last_reload_ns >= process::DEBOUNCE_NS
            &&& forall|i: int, j: int|
                0 <= i < j < times.len() ==> #[trigger] times[j] - #[trigger] times[i]
                    >= process::DEBOUNCE_NS
        }),
    decreases changes.len(),
{
    if changes.len() > 0 {
        let (touches_config, kind, now_ns) = changes[0];
        let next = watched(watch, touches_config, kind, now_ns);
        reloads_are_apart(next, changes.drop_first());
        let rest = reload_times(next, changes.drop_first());
        let times = reload_times(watch, changes);
        if watch.calls_for_reload(touches_config, kind, now_ns) {
            assert forall|i: int, j: int| 0 <= i < j < times.len() implies #[trigger] times[j]
                - #[trigger] times[i] >= process::DEBOUNCE_NS by {
                assert(times[j] == rest[j - 1]);
                if i > 0 {
                    assert(times[i] == rest[i - 1]);
                } else if j > 1 {
                    assert(rest[j - 1] - rest[0] >= process::DEBOUNCE_NS);
                }
            }
        }
    }
}

/// A child that is entered in the list and taken off it again leaves no trace: the list has
/// neither it nor lost another.
pub proof fn a_child_leaves_no_trace(pids: Seq<u32>, pid: u32)
    requires
        !pids.contains(pid),
    ensures
        pids.push(pid).filter(process::other_than(pid)) == pids,
{
    let p = process::other_than(pid);
    reveal(Seq::filter);
    assert(pids.push(pid).drop_last() =~= pids);
    assert forall|i: int| 0 <= i < pids.len() implies p(#[trigger] pids[i]) by {
        assert(pids.contains(pids[i]));
    }
    seqs::lemma_filter_all(pids, p);
}

} // verus!
