//! The supervisors that the requests of the program lead to.
use vstd::prelude::*;

use crate::config;
use crate::config::ScriptConfigModel;
use crate::laws;
use crate::process::{EventModel, OutputModel};
use crate::reload;
use crate::reload_laws;
use crate::script;
use crate::script::{ActionModel, ScriptModel};
use crate::seqs;
use crate::step;
use crate::step::MuxModel;

verus! {

/// The supervisor whose stop flag is kept in a slot.
pub struct SlotModel {
    pub name: Seq<char>,
    pub cmd: Seq<char>,
    pub generation: u64,
    /// Its stop flag is set.
    pub stop: bool,
}

/// What the slots hold after one more request.
pub open spec fn served(slots: Map<nat, SlotModel>, action: ActionModel) -> Map<nat, SlotModel> {
    match action {
        ActionModel::Stop { slot } => if slots.dom().contains(slot) {
            slots.insert(slot, SlotModel { stop: true, ..slots[slot] })
        } else {
            slots
        },
        ActionModel::Spawn { slot, name, cmd, generation } => slots.insert(
            slot,
            SlotModel { name, cmd, generation, stop: false },
        ),
        _ => slots,
    }
}

/// What the slots hold after the requests.
pub open spec fn all_served(slots: Map<nat, SlotModel>, actions: Seq<ActionModel>) -> Map<
    nat,
    SlotModel,
>
    decreases actions.len(),
{
    if actions.len() == 0 {
        slots
    } else {
        served(all_served(slots, actions.drop_last()), actions.last())
    }
}

/// The supervisor that a script stands for.
pub open spec fn slot_of(s: ScriptModel) -> SlotModel {
    SlotModel { name: s.name, cmd: s.cmd, generation: s.generation, stop: s.stopping }
}

/// Every script has its supervisor: one of its name, command and generation, whose stop flag is
/// set if and only if the script was told to stop.
pub open spec fn supervised(slots: Map<nat, SlotModel>, scripts: Seq<ScriptModel>) -> bool {
    forall|i: int|
        0 <= i < scripts.len() ==> slots.dom().contains((#[trigger] scripts[i]).slot)
            && slots[scripts[i].slot] == slot_of(scripts[i])
}

proof fn lemma_one_served(slots: Map<nat, SlotModel>, action: ActionModel)
    ensures
        all_served(slots, seq![action]) == served(slots, action),
{
    assert(seq![action].drop_last() =~= Seq::empty());
    assert(all_served(slots, Seq::empty()) == slots);
}

proof fn lemma_served_in_turn(
    slots: Map<nat, SlotModel>,
    a: Seq<ActionModel>,
    b: Seq<ActionModel>,
)
    ensures
        all_served(slots, a + b) == all_served(all_served(slots, a), b),
    decreases b.len(),
{
    if b.len() == 0 {
        assert(a + b =~= a);
    } else {
        assert((a + b).drop_last() =~= a + b.drop_last());
        lemma_served_in_turn(slots, a, b.drop_last());
    }
}

/// Starting the scripts at `from` and after gives them their supervisors and leaves the others
/// theirs.
proof fn lemma_starts_served(slots: Map<nat, SlotModel>, a: Seq<ScriptModel>, from: int)
    requires
        0 <= from <= a.len(),
        supervised(slots, a.take(from)),
        forall|j: int|
            from <= j < a.len() ==> !(#[trigger] a[j]).stopping && !script::slot_taken(
                a.take(j),
                a[j].slot,
            ),
    ensures
        supervised(all_served(slots, reload::spawns(a.skip(from))), a),
    decreases a.len() - from,
{
    if from == a.len() {
        assert(a.take(from) =~= a);
        assert(reload::spawns(a.skip(from)).len() == 0);
    } else {
        let last = a.len() - 1;
        let rest = a.drop_last();
        assert(rest.take(from) =~= a.take(from));
        assert forall|j: int| from <= j < rest.len() implies !(#[trigger] rest[j]).stopping
            && !script::slot_taken(rest.take(j), rest[j].slot) by {
            assert(rest[j] == a[j]);
            assert(rest.take(j) =~= a.take(j));
        }
        lemma_starts_served(slots, rest, from);
        let before = all_served(slots, reload::spawns(rest.skip(from)));
        assert(rest.skip(from) =~= a.skip(from).drop_last());
        assert(reload::spawns(a.skip(from)).drop_last() =~= reload::spawns(rest.skip(from)));
        assert(reload::spawns(a.skip(from)).last() == script::spawn_model(a[last]));
        let after = all_served(slots, reload::spawns(a.skip(from)));
        assert(after == served(before, script::spawn_model(a[last])));
        assert(!script::slot_taken(a.take(last), a[last].slot) && !a[last].stopping);
        assert forall|i: int| 0 <= i < a.len() implies after.dom().contains(
            (#[trigger] a[i]).slot,
        ) && after[a[i].slot] == slot_of(a[i]) by {
            if i < last {
                assert(rest[i] == a[i]);
                assert(before.dom().contains(rest[i].slot));
                assert(a.take(last)[i] == a[i]);
                assert(a[i].slot != a[last].slot);
            }
        }
    }
}

/// Stopping the dropped scripts sets their flags and no others.
proof fn lemma_stops_served(
    slots: Map<nat, SlotModel>,
    c: Seq<ScriptConfigModel>,
    scripts: Seq<ScriptModel>,
)
    requires
        reload_laws::slots_distinct(scripts),
        supervised(slots, scripts),
    ensures
        supervised(
            all_served(slots, reload::stops(c, scripts)),
            reload::all_marked(c, scripts),
        ),
{
    lemma_stops_prefix(slots, c, scripts, scripts.len() as int);
    assert(scripts.take(scripts.len() as int) =~= scripts);
}

proof fn lemma_stops_prefix(
    slots: Map<nat, SlotModel>,
    c: Seq<ScriptConfigModel>,
    scripts: Seq<ScriptModel>,
    n: int,
)
    requires
        reload_laws::slots_distinct(scripts),
        supervised(slots, scripts),
        0 <= n <= scripts.len(),
    ensures
        ({
            let after = all_served(slots, reload::stops(c, scripts.take(n)));
            &&& forall|i: int|
                0 <= i < n ==> after.dom().contains((#[trigger] scripts[i]).slot)
                    && after[scripts[i].slot] == slot_of(reload::marked(c, scripts[i]))
            &&& forall|i: int|
                n <= i < scripts.len() ==> after.dom().contains((#[trigger] scripts[i]).slot)
                    && after[scripts[i].slot] == slot_of(scripts[i])
        }),
    decreases n,
{
    let p = reload::dropped_by(c);
    if n == 0 {
        assert(scripts.take(0).filter(p) =~= Seq::empty()) by {
            reveal(Seq::filter);
        }
        assert(reload::stops(c, scripts.take(0)).len() == 0);
    } else {
        lemma_stops_prefix(slots, c, scripts, n - 1);
        seqs::lemma_filter_take(scripts, p, n - 1);
        let before = all_served(slots, reload::stops(c, scripts.take(n - 1)));
        let after = all_served(slots, reload::stops(c, scripts.take(n)));
        let s = scripts[n - 1];
        assert(before.dom().contains(s.slot) && before[s.slot] == slot_of(s));
        if p(s) {
            let asked = reload::stops(c, scripts.take(n));
            assert(asked.drop_last() =~= reload::stops(c, scripts.take(n - 1)));
            assert(asked.last() == reload::stop_model(s));
            assert(after == served(before, reload::stop_model(s)));
        }
        assert forall|i: int| 0 <= i < n implies after.dom().contains(
            (#[trigger] scripts[i]).slot,
        ) && after[scripts[i].slot] == slot_of(reload::marked(c, scripts[i])) by {
            if i < n - 1 {
                assert(scripts[i].slot != scripts[n - 1].slot);
            }
        }
        assert forall|i: int| n <= i < scripts.len() implies after.dom().contains(
            (#[trigger] scripts[i]).slot,
        ) && after[scripts[i].slot] == slot_of(scripts[i]) by {
            assert(scripts[n - 1].slot != scripts[i].slot);
        }
    }
}

/// Once the requests of the start are served, every script has its supervisor.
pub proof fn supervised_at_the_start(c: config::ConfigModel)
    ensures
        supervised(
            all_served(Map::empty(), reload::spawns(step::initial(c).scripts)),
            step::initial(c).scripts,
        ),
{
    let scripts = step::initial(c).scripts;
    assert forall|j: int| 0 <= j < scripts.len() implies !(#[trigger] scripts[j]).stopping
        && !script::slot_taken(scripts.take(j), scripts[j].slot) by {
        let earlier = scripts.take(j);
        if script::slot_taken(earlier, scripts[j].slot) {
            let i = choose|i: int|
                0 <= i < earlier.len() && #[trigger] earlier[i].slot == scripts[j].slot;
            assert(earlier[i] == scripts[i]);
        }
    }
    lemma_starts_served(Map::empty(), scripts, 0);
    assert(scripts.skip(0) =~= scripts);
}

proof fn lemma_reload_supervised(
    slots: Map<nat, SlotModel>,
    c: Seq<ScriptConfigModel>,
    scripts: Seq<ScriptModel>,
)
    requires
        seqs::distinct(config::names(c)),
        reload_laws::live_names_distinct(scripts),
        reload_laws::slots_distinct(scripts),
        supervised(slots, scripts),
    ensures
        supervised(
            all_served(slots, reload::reload_actions(c, scripts)),
            reload::reloaded(c, scripts),
        ),
{
    reload_laws::lemma_reload_steps(c, scripts);
    let kept = reload::all_marked(c, scripts);
    let a = reload::with_added(kept, c);
    let r = reload::reloaded(c, scripts);
    lemma_stops_served(slots, c, scripts);
    let stopped = all_served(slots, reload::stops(c, scripts));
    lemma_starts_served(stopped, a, kept.len() as int);
    lemma_served_in_turn(
        slots,
        reload::stops(c, scripts),
        reload::spawns(a.skip(kept.len() as int)),
    );
    let after = all_served(slots, reload::reload_actions(c, scripts));
    assert(supervised(after, a));
    assert forall|i: int| 0 <= i < r.len() implies after.dom().contains((#[trigger] r[i]).slot)
        && after[r[i].slot] == slot_of(r[i]) by {
        let j = choose|j: int|
            0 <= j < a.len() && r[i] == (ScriptModel {
                color: crate::display::palette(i),
                ..#[trigger] a[j]
            });
        assert(after.dom().contains(a[j].slot));
    }
}

proof fn lemma_plain_supervised(slots: Map<nat, SlotModel>, m: MuxModel, e: EventModel)
    requires
        laws::sound(m),
        laws::can_come(e),
        supervised(slots, m.scripts),
    ensures
        supervised(
            all_served(slots, step::plain_step(m, e).actions),
            step::plain_step(m, e).mux.scripts,
        ),
{
    let next = step::plain_step(m, e);
    match e {
        EventModel::Keypress(b) => {
            lemma_one_served(slots, ActionModel::TriggerShutdown);
            lemma_same_slots(slots, m.scripts, next.mux.scripts);
        },
        EventModel::Output(OutputModel::Exited { script_name, code, generation }) => {
            seqs::lemma_first_from(m.scripts, script::named(script_name), 0);
            let after = next.mux.scripts;
            assert forall|i: int| 0 <= i < after.len() implies slots.dom().contains(
                (#[trigger] after[i]).slot,
            ) && slots[after[i].slot] == slot_of(after[i]) by {
                match seqs::first_where(m.scripts, script::named(script_name)) {
                    Some(k) if m.scripts[k].stopping && i >= k => {
                        assert(after[i] == m.scripts[i + 1]);
                    },
                    _ => {
                        assert(slots.dom().contains(m.scripts[i].slot));
                    },
                }
            }
        },
        EventModel::Output(OutputModel::Restarting { script_name, generation }) => {
            seqs::lemma_first_from(
                m.scripts,
                script::named_in_generation(script_name, generation),
                0,
            );
            lemma_same_slots(slots, m.scripts, next.mux.scripts);
        },
        EventModel::Output(OutputModel::Restarted { script_name, generation }) => {
            seqs::lemma_first_from(
                m.scripts,
                script::named_in_generation(script_name, generation),
                0,
            );
            lemma_same_slots(slots, m.scripts, next.mux.scripts);
        },
        EventModel::ConfigReloaded(c) => {
            if !m.shutting_down {
                lemma_reload_supervised(slots, c.scripts, m.scripts);
            }
        },
        _ => {},
    }
}

/// Scripts that stand for the same supervisors as before still have them.
proof fn lemma_same_slots(
    slots: Map<nat, SlotModel>,
    before: Seq<ScriptModel>,
    after: Seq<ScriptModel>,
)
    requires
        supervised(slots, before),
        after.len() == before.len(),
        forall|i: int|
            0 <= i < after.len() ==> (#[trigger] after[i]).slot == before[i].slot && slot_of(
                after[i],
            ) == slot_of(before[i]),
    ensures
        supervised(slots, after),
{
    assert forall|i: int| 0 <= i < after.len() implies slots.dom().contains(
        (#[trigger] after[i]).slot,
    ) && slots[after[i].slot] == slot_of(after[i]) by {
        assert(slots.dom().contains(before[i].slot));
    }
}

proof fn lemma_replay_supervised(
    slots: Map<nat, SlotModel>,
    m: MuxModel,
    events: Seq<EventModel>,
    flags: Seq<bool>,
    n: int,
)
    requires
        laws::sound(m),
        m.dialog is None,
        laws::can_wait(events),
        supervised(slots, m.scripts),
        0 <= n <= events.len(),
    ensures
        supervised(
            all_served(slots, step::replayed(m, events, flags, n).actions),
            step::replayed(m, events, flags, n).mux.scripts,
        ),
    decreases n,
{
    if n > 0 {
        lemma_replay_supervised(slots, m, events, flags, n - 1);
        laws::lemma_replay_keeps(m, events, flags, n - 1);
        let before = step::replayed(m, events, flags, n - 1);
        let flag = step::flag_at(flags, n - 1);
        let next = step::noted_step(before.mux, events[n - 1], flag);
        let then = all_served(slots, before.actions);
        assert(laws::can_come(events[n - 1]));
        assert(supervised(all_served(then, next.actions), next.mux.scripts)) by {
            reveal(step::noted_step);
            lemma_plain_supervised(then, step::noted(before.mux, flag), events[n - 1]);
        }
        lemma_served_in_turn(slots, before.actions, next.actions);
    }
}

proof fn lemma_choice_supervised(
    slots: Map<nat, SlotModel>,
    m: MuxModel,
    d: step::Dialog,
    k: int,
)
    requires
        laws::sound(m),
        0 <= k,
        supervised(slots, m.scripts),
    ensures
        supervised(
            all_served(slots, step::choose_step(m, d, k).actions),
            step::choose_step(m, d, k).mux.scripts,
        ),
{
    let next = step::choose_step(m, d, k);
    match d {
        step::Dialog::Urls => {
            lemma_one_served(slots, ActionModel::OpenUrl(m.urls[k].url));
        },
        step::Dialog::Restart => {
            if k < m.scripts.len() && !m.scripts[k].stopping {
                let s = m.scripts[k];
                let fresh = step::restarted_by_hand(s);
                let stop = seq![reload::stop_model(s)];
                assert(next.actions.drop_last() =~= stop);
                lemma_one_served(slots, reload::stop_model(s));
                assert(next.actions.last() == script::spawn_model(fresh));
                assert(slots.dom().contains(s.slot));
                let stopped = served(slots, reload::stop_model(s));
                let after = all_served(slots, next.actions);
                assert(after == served(stopped, script::spawn_model(fresh)));
                let u = next.mux.scripts;
                assert forall|i: int| 0 <= i < u.len() implies after.dom().contains(
                    (#[trigger] u[i]).slot,
                ) && after[u[i].slot] == slot_of(u[i]) by {
                    if i != k {
                        assert(slots.dom().contains(m.scripts[i].slot));
                        assert(m.scripts[i].slot != m.scripts[k].slot);
                    }
                }
            }
        },
    }
}

/// Every script keeps having its supervisor, once what an event asks for is served: one of its
/// name, command and generation, told to stop if and only if the script is.
pub proof fn stays_supervised(
    slots: Map<nat, SlotModel>,
    m: MuxModel,
    e: EventModel,
    flags: Seq<bool>,
)
    requires
        laws::sound(m),
        laws::can_come(e),
        supervised(slots, m.scripts),
    ensures
        supervised(
            all_served(slots, step::step(m, e, flags).actions),
            step::step(m, e, flags).mux.scripts,
        ),
{
    let now = step::noted(m, step::flag_at(flags, 0));
    assert(laws::sound(now));
    match now.dialog {
        None => lemma_plain_supervised(slots, now, e),
        Some(d) => match e {
            EventModel::Keypress(b) => {
                let chosen = step::chosen_step(now, d, b);
                if let Some(k) = step::key_position(b) {
                    lemma_choice_supervised(slots, now, d, k);
                }
                let then = all_served(slots, chosen.actions);
                assert(supervised(then, chosen.mux.scripts));
                laws::lemma_choice_keeps(now, d, b);
                let closed = step::closed(chosen.mux);
                let after = step::later(flags);
                lemma_replay_supervised(
                    then,
                    closed,
                    m.buffered,
                    after,
                    m.buffered.len() as int,
                );
                lemma_served_in_turn(
                    slots,
                    chosen.actions,
                    step::replay(closed, m.buffered, after).actions,
                );
            },
            _ => {},
        },
    }
}

} // verus!
