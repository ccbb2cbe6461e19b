//! What a new configuration does to the scripts.
use vstd::prelude::*;

use crate::config::{Config, ScriptConfig, ScriptConfigModel};
use crate::display;
use crate::display::ratatui_color;
use crate::script;
use crate::script::{
    find_live, find_named, free_slot, name_width as column_width, spawn_supervisor, Action,
    ActionModel, ScriptModel, ScriptState,
};
use crate::seqs;
use crate::terminal::RunState;

verus! {

/// The command that the configuration has for this name. Where it has several, the last counts.
pub open spec fn wanted_cmd(config: Seq<ScriptConfigModel>, name: Seq<char>) -> Option<Seq<char>>
    decreases config.len(),
{
    if config.len() == 0 {
        None
    } else if config.last().name == name {
        Some(config.last().cmd)
    } else {
        wanted_cmd(config.drop_last(), name)
    }
}

/// Scripts that run and that the configuration no longer has, or has with another command.
pub open spec fn dropped_by(config: Seq<ScriptConfigModel>) -> spec_fn(ScriptModel) -> bool {
    |s: ScriptModel| !s.stopping && wanted_cmd(config, s.name) != Some(s.cmd)
}

/// The script as the configuration leaves it: told to stop if it is dropped.
pub open spec fn marked(config: Seq<ScriptConfigModel>, s: ScriptModel) -> ScriptModel {
    ScriptModel { stopping: s.stopping || dropped_by(config)(s), ..s }
}

/// Every script as the configuration leaves it.
pub open spec fn all_marked(config: Seq<ScriptConfigModel>, scripts: Seq<ScriptModel>) -> Seq<
    ScriptModel,
> {
    scripts.map_values(|s: ScriptModel| marked(config, s))
}

/// The request to stop the supervisor of `s`.
pub open spec fn stop_model(s: ScriptModel) -> ActionModel {
    ActionModel::Stop { slot: s.slot }
}

/// The requests to stop the supervisors of the dropped scripts.
pub open spec fn stops(config: Seq<ScriptConfigModel>, scripts: Seq<ScriptModel>) -> Seq<
    ActionModel,
> {
    scripts.filter(dropped_by(config)).map_values(|s: ScriptModel| stop_model(s))
}

/// A script for the entry `c`. One that takes the place of another is shown if that one was.
pub open spec fn fresh_script(scripts: Seq<ScriptModel>, c: ScriptConfigModel) -> ScriptModel {
    ScriptModel {
        name: c.name,
        cmd: c.cmd,
        visible: match seqs::first_where(scripts, script::named(c.name)) {
            Some(k) => scripts[k].visible,
            None => true,
        },
        run_state: RunState::Running,
        color: display::palette(scripts.len() as int),
        slot: script::free_slot_model(scripts),
        stopping: false,
        generation: 0,
    }
}

/// The scripts, with a fresh one at the end for every entry that no running script has.
pub open spec fn with_added(scripts: Seq<ScriptModel>, config: Seq<ScriptConfigModel>) -> Seq<
    ScriptModel,
>
    decreases config.len(),
{
    if config.len() == 0 {
        scripts
    } else {
        let before = with_added(scripts, config.drop_last());
        let c = config.last();
        if seqs::first_where(before, script::live_named(c.name)) is Some {
            before
        } else {
            before.push(fresh_script(before, c))
        }
    }
}

/// The requests to start supervisors for these scripts.
pub open spec fn spawns(scripts: Seq<ScriptModel>) -> Seq<ActionModel> {
    scripts.map_values(|s: ScriptModel| script::spawn_model(s))
}

/// Entries of this name.
pub open spec fn entry_named(name: Seq<char>) -> spec_fn(ScriptConfigModel) -> bool {
    |c: ScriptConfigModel| c.name == name
}

/// The position of a script in the order of the configuration. Those that are stopping, and
/// those that it does not have, come after all others.
pub open spec fn rank(config: Seq<ScriptConfigModel>, s: ScriptModel) -> int {
    if s.stopping {
        config.len() as int
    } else {
        match seqs::first_where(config, entry_named(s.name)) {
            Some(k) => k,
            None => config.len() as int,
        }
    }
}

/// Scripts at this position in the order of the configuration.
pub open spec fn of_rank(config: Seq<ScriptConfigModel>, r: int) -> spec_fn(ScriptModel) -> bool {
    |s: ScriptModel| rank(config, s) == r
}

/// The scripts of the ranks below `end`, rank by rank; within a rank they keep their order.
pub open spec fn ranked_below(
    config: Seq<ScriptConfigModel>,
    scripts: Seq<ScriptModel>,
    end: int,
) -> Seq<ScriptModel>
    decreases end,
{
    if end <= 0 {
        Seq::empty()
    } else {
        ranked_below(config, scripts, end - 1) + scripts.filter(of_rank(config, end - 1))
    }
}

/// The scripts in the order of the configuration.
pub open spec fn ordered(config: Seq<ScriptConfigModel>, scripts: Seq<ScriptModel>) -> Seq<
    ScriptModel,
> {
    ranked_below(config, scripts, config.len() as int + 1)
}

/// The scripts, each in the colour of its position.
pub open spec fn recolored(scripts: Seq<ScriptModel>) -> Seq<ScriptModel> {
    scripts.map(|i: int, s: ScriptModel| ScriptModel { color: display::palette(i), ..s })
}

/// The scripts after a reload.
pub open spec fn reloaded(config: Seq<ScriptConfigModel>, scripts: Seq<ScriptModel>) -> Seq<
    ScriptModel,
> {
    recolored(ordered(config, with_added(all_marked(config, scripts), config)))
}

/// What a reload asks of the system: first the stops, then the starts.
pub open spec fn reload_actions(config: Seq<ScriptConfigModel>, scripts: Seq<ScriptModel>) -> Seq<
    ActionModel,
> {
    let kept = all_marked(config, scripts);
    stops(config, scripts) + spawns(with_added(kept, config).skip(kept.len() as int))
}

/// The configuration has this script, with this command.
fn is_wanted(config: &Vec<ScriptConfig>, script: &ScriptState) -> (r: bool)
    ensures
        r == (wanted_cmd(seqs::views(config@), script@.name) == Some(script@.cmd)),
{
    let ghost all = seqs::views(config@);
    let mut found: Option<usize> = None;
    for i in 0..config.len()
        invariant
            all == seqs::views(config@),
            match found {
                Some(k) => k < i && wanted_cmd(all.take(i as int), script@.name) == Some(
                    config@[k as int].cmd@,
                ),
                None => wanted_cmd(all.take(i as int), script@.name) is None,
            },
    {
        assert(all.take(i + 1).drop_last() =~= all.take(i as int));
        if config[i].name == script.name {
            found = Some(i);
        }
    }
    assert(all.take(config.len() as int) =~= all);
    match found {
        Some(k) => config[k].cmd == script.cmd,
        None => false,
    }
}

/// Tells the scripts to stop that the configuration drops.
fn mark_dropped(config: &Vec<ScriptConfig>, scripts: &mut Vec<ScriptState>) -> (r: Vec<Action>)
    ensures
        seqs::views(final(scripts)@) == all_marked(
            seqs::views(config@),
            seqs::views(old(scripts)@),
        ),
        seqs::views(r@) == stops(seqs::views(config@), seqs::views(old(scripts)@)),
{
    let ghost c = seqs::views(config@);
    let ghost before = seqs::views(scripts@);
    let ghost p = dropped_by(c);
    let mut actions: Vec<Action> = Vec::new();
    let count: usize = scripts.len();
    assert(before.take(0).filter(p) =~= Seq::empty()) by {
        reveal(Seq::filter);
    }
    assert(seqs::views(actions@) =~= stops(c, before.take(0)));
    for i in 0..count
        invariant
            c == seqs::views(config@),
            p == dropped_by(c),
            count == scripts.len(),
            before.len() == count,
            forall|j: int| 0 <= j < i ==> (#[trigger] scripts@[j])@ == marked(c, before[j]),
            forall|j: int| i <= j < count ==> (#[trigger] scripts@[j])@ == before[j],
            seqs::views(actions@) == stops(c, before.take(i as int)),
    {
        assert(scripts@[i as int]@ == before[i as int]);
        proof {
            seqs::lemma_filter_take(before, p, i as int);
        }
        if !scripts[i].stopping && !is_wanted(config, &scripts[i]) {
            let slot: usize = scripts[i].slot;
            let ghost asked = actions@;
            actions.push(Action::Stop { slot });
            scripts[i].stopping = true;
            proof {
                seqs::lemma_views_push(asked, actions@.last());
                assert(stops(c, before.take(i + 1)) =~= stops(c, before.take(i as int)).push(
                    stop_model(before[i as int]),
                ));
            }
        }
        assert(seqs::views(actions@) == stops(c, before.take(i + 1)));
    }
    assert(before.take(count as int) =~= before);
    assert(seqs::views(scripts@) =~= all_marked(c, before));
    actions
}

/// Adds a script for every entry that no running script has.
fn add_missing(config: &Vec<ScriptConfig>, scripts: &mut Vec<ScriptState>) -> (r: Vec<Action>)
    ensures
        seqs::views(final(scripts)@) == with_added(
            seqs::views(old(scripts)@),
            seqs::views(config@),
        ),
        old(scripts)@.len() <= final(scripts)@.len(),
        seqs::views(r@) == spawns(
            seqs::views(final(scripts)@).skip(old(scripts)@.len() as int),
        ),
{
    let ghost c = seqs::views(config@);
    let ghost before = seqs::views(scripts@);
    let mut actions: Vec<Action> = Vec::new();
    assert(c.take(0) =~= Seq::empty());
    assert(seqs::views(actions@) =~= spawns(seqs::views(scripts@).skip(before.len() as int)));
    for i in 0..config.len()
        invariant
            c == seqs::views(config@),
            before == seqs::views(old(scripts)@),
            before.len() <= scripts.len(),
            seqs::views(scripts@) == with_added(before, c.take(i as int)),
            seqs::views(actions@) == spawns(seqs::views(scripts@).skip(before.len() as int)),
    {
        assert(c.take(i + 1).drop_last() =~= c.take(i as int));
        let ghost now = seqs::views(scripts@);
        let entry = &config[i];
        if find_live(scripts, &entry.name).is_none() {
            let visible = match find_named(scripts, &entry.name) {
                Some(k) => scripts[k].visible,
                None => true,
            };
            let state = ScriptState {
                name: entry.name.clone(),
                cmd: entry.cmd.clone(),
                visible,
                run_state: RunState::Running,
                color: ratatui_color(scripts.len()),
                slot: free_slot(scripts),
                stopping: false,
                generation: 0,
            };
            assert(state@ == fresh_script(now, c[i as int]));
            let ghost asked = actions@;
            actions.push(spawn_supervisor(&state));
            proof {
                seqs::lemma_views_push(asked, actions@.last());
            }
            scripts.push(state);
            assert(seqs::views(scripts@) =~= now.push(fresh_script(now, c[i as int])));
            assert(seqs::views(scripts@).skip(before.len() as int) =~= now.skip(
                before.len() as int,
            ).push(fresh_script(now, c[i as int])));
            assert(spawns(seqs::views(scripts@).skip(before.len() as int)) =~= spawns(
                now.skip(before.len() as int),
            ).push(script::spawn_model(fresh_script(now, c[i as int]))));
        }
    }
    assert(c.take(config.len() as int) =~= c);
    actions
}

/// The position of `script` in the order of the configuration.
fn rank_of(config: &Vec<ScriptConfig>, script: &ScriptState) -> (r: usize)
    ensures
        r == rank(seqs::views(config@), script@),
        r <= config.len(),
{
    if script.stopping {
        return config.len();
    }
    let ghost all = seqs::views(config@);
    let ghost p = entry_named(script@.name);
    for i in 0..config.len()
        invariant
            all == seqs::views(config@),
            p == entry_named(script@.name),
            !script.stopping,
            seqs::first_where(all, p) == seqs::first_from(all, p, i as int),
    {
        if config[i].name == script.name {
            assert(p(all[i as int]));
            return i;
        }
        assert(!p(all[i as int]));
    }
    config.len()
}

/// The scripts in the order of the configuration.
fn in_order(config: &Vec<ScriptConfig>, scripts: &Vec<ScriptState>) -> (r: Vec<ScriptState>)
    ensures
        seqs::views(r@) == ordered(seqs::views(config@), seqs::views(scripts@)),
{
    let ghost c = seqs::views(config@);
    let ghost all = seqs::views(scripts@);
    let mut ranks: Vec<usize> = Vec::new();
    for i in 0..scripts.len()
        invariant
            c == seqs::views(config@),
            all == seqs::views(scripts@),
            ranks.len() == i,
            forall|j: int| 0 <= j < i ==> #[trigger] ranks@[j] == rank(c, all[j]),
    {
        ranks.push(rank_of(config, &scripts[i]));
    }
    let mut sorted: Vec<ScriptState> = Vec::new();
    let mut r: usize = 0;
    assert(seqs::views(sorted@) =~= ranked_below(c, all, 0));
    loop
        invariant
            c == seqs::views(config@),
            all == seqs::views(scripts@),
            ranks.len() == scripts.len(),
            forall|j: int| 0 <= j < all.len() ==> #[trigger] ranks@[j] == rank(c, all[j]),
            r <= config.len(),
            seqs::views(sorted@) == ranked_below(c, all, r as int),
        decreases config.len() - r,
    {
        let ghost p = of_rank(c, r as int);
        let ghost start = seqs::views(sorted@);
        assert(all.take(0).filter(p) =~= Seq::empty()) by {
            reveal(Seq::filter);
        }
        assert(seqs::views(sorted@) =~= start + all.take(0).filter(p));
        for i in 0..scripts.len()
            invariant
                c == seqs::views(config@),
                all == seqs::views(scripts@),
                p == of_rank(c, r as int),
                ranks.len() == scripts.len(),
                forall|j: int| 0 <= j < all.len() ==> #[trigger] ranks@[j] == rank(c, all[j]),
                seqs::views(sorted@) == start + all.take(i as int).filter(p),
        {
            proof {
                seqs::lemma_filter_take(all, p, i as int);
            }
            let ghost so_far = seqs::views(sorted@);
            assert(ranks@[i as int] == rank(c, all[i as int]));
            if ranks[i] == r {
                sorted.push(scripts[i].clone());
                assert(seqs::views(sorted@) =~= so_far.push(all[i as int]));
                assert(seqs::views(sorted@) =~= start + all.take(i + 1).filter(p));
            }
        }
        assert(all.take(scripts.len() as int) =~= all);
        if r == config.len() {
            return sorted;
        }
        r = r + 1;
    }
}

/// Gives every script the colour of its position.
fn recolor(scripts: &mut Vec<ScriptState>)
    ensures
        seqs::views(final(scripts)@) == recolored(seqs::views(old(scripts)@)),
{
    let ghost before = seqs::views(scripts@);
    let count: usize = scripts.len();
    for i in 0..count
        invariant
            count == scripts.len(),
            before.len() == count,
            forall|j: int|
                0 <= j < i ==> (#[trigger] scripts@[j])@ == (ScriptModel {
                    color: display::palette(j),
                    ..before[j]
                }),
            forall|j: int| i <= j < count ==> (#[trigger] scripts@[j])@ == before[j],
    {
        assert(scripts@[i as int]@ == before[i as int]);
        scripts[i].color = ratatui_color(i);
    }
    assert(seqs::views(scripts@) =~= recolored(before));
}

/// Brings the scripts in line with a new configuration.
///
/// Scripts that it no longer has, or has with another command, are told to stop; for entries
/// that no running script has, one is started. The scripts then stand in the order of the
/// configuration, those that are stopping last, each in the colour of its position, and the
/// column of names fits them.
pub fn apply_config_reload(
    new_config: &Config,
    scripts: &mut Vec<ScriptState>,
    name_width: &mut usize,
) -> (r: Vec<Action>)
    ensures
        seqs::views(final(scripts)@) == reloaded(
            new_config@.scripts,
            seqs::views(old(scripts)@),
        ),
        *final(name_width) == script::name_column(seqs::views(final(scripts)@)),
        seqs::views(r@) == reload_actions(new_config@.scripts, seqs::views(old(scripts)@)),
{
    let ghost c = seqs::views(new_config.scripts@);
    let ghost before = seqs::views(scripts@);
    let mut actions = mark_dropped(&new_config.scripts, scripts);
    let mut starts = add_missing(&new_config.scripts, scripts);
    let ghost asked = actions@;
    let ghost started = starts@;
    actions.append(&mut starts);
    assert(seqs::views(actions@) =~= seqs::views(asked) + seqs::views(started));
    let mut sorted = in_order(&new_config.scripts, scripts);
    recolor(&mut sorted);
    *scripts = sorted;
    *name_width = column_width(scripts);
    actions
}

} // verus!
