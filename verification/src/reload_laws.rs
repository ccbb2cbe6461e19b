//! What holds of every reload.
use vstd::prelude::*;

use crate::config;
use crate::config::ScriptConfigModel;
use crate::display;
use crate::reload;
use crate::script;
use crate::script::{ActionModel, ScriptModel};
use crate::seqs;

verus! {

/// No two scripts that were not told to stop share a name.
pub open spec fn live_names_distinct(scripts: Seq<ScriptModel>) -> bool {
    forall|i: int, j: int|
        0 <= i < j < scripts.len() && !(#[trigger] scripts[i]).stopping && !(
        #[trigger] scripts[j]).stopping ==> scripts[i].name != scripts[j].name
}

/// The entry is for this script: they have the name and the command in common.
pub open spec fn is_for(c: ScriptConfigModel, s: ScriptModel) -> bool {
    c.name == s.name && c.cmd == s.cmd
}

/// The scripts are in line with the configuration: first come those that it has, in its order and
/// with its commands, then those that are stopping, each in the colour of its position.
pub open spec fn in_line(c: Seq<ScriptConfigModel>, scripts: Seq<ScriptModel>) -> bool {
    &&& scripts.len() >= c.len()
    &&& forall|i: int|
        0 <= i < c.len() ==> !(#[trigger] scripts[i]).stopping && is_for(c[i], scripts[i])
    &&& forall|i: int| c.len() <= i < scripts.len() ==> (#[trigger] scripts[i]).stopping
    &&& forall|i: int|
        0 <= i < scripts.len() ==> (#[trigger] scripts[i]).color == display::palette(i)
    &&& live_names_distinct(scripts)
}

/// The scripts that were told to stop.
pub open spec fn told_to_stop() -> spec_fn(ScriptModel) -> bool {
    |s: ScriptModel| s.stopping
}

proof fn lemma_wanted(c: Seq<ScriptConfigModel>, name: Seq<char>)
    ensures
        match reload::wanted_cmd(c, name) {
            Some(cmd) => exists|i: int|
                0 <= i < c.len() && (#[trigger] c[i]).name == name && c[i].cmd == cmd,
            None => forall|i: int| 0 <= i < c.len() ==> (#[trigger] c[i]).name != name,
        },
    decreases c.len(),
{
    if c.len() > 0 && c.last().name != name {
        let rest = c.drop_last();
        lemma_wanted(rest, name);
        match reload::wanted_cmd(rest, name) {
            Some(cmd) => {
                let i = choose|i: int|
                    0 <= i < rest.len() && (#[trigger] rest[i]).name == name && rest[i].cmd == cmd;
                assert(c[i].name == name && c[i].cmd == cmd);
            },
            None => {
                assert forall|i: int| 0 <= i < c.len() implies (#[trigger] c[i]).name != name by {
                    if i < rest.len() {
                        assert(rest[i].name != name);
                    }
                }
            },
        }
    }
}

proof fn lemma_wanted_entry(c: Seq<ScriptConfigModel>, i: int)
    requires
        seqs::distinct(config::names(c)),
        0 <= i < c.len(),
    ensures
        reload::wanted_cmd(c, c[i].name) == Some(c[i].cmd),
{
    lemma_wanted(c, c[i].name);
    let all = config::names(c);
    match reload::wanted_cmd(c, c[i].name) {
        Some(cmd) => {
            let j = choose|j: int|
                0 <= j < c.len() && (#[trigger] c[j]).name == c[i].name && c[j].cmd == cmd;
            assert(all[i] == all[j]);
            assert(i == j);
        },
        None => {
            assert(c[i].name != c[i].name);
        },
    }
}

/// The first script of a name that was not told to stop is the only one.
proof fn lemma_live(scripts: Seq<ScriptModel>, name: Seq<char>)
    ensures
        match seqs::first_where(scripts, script::live_named(name)) {
            Some(k) => 0 <= k < scripts.len() && scripts[k].name == name && !scripts[k].stopping,
            None => forall|j: int|
                0 <= j < scripts.len() && !(#[trigger] scripts[j]).stopping ==> scripts[j].name
                    != name,
        },
{
    let p = script::live_named(name);
    seqs::lemma_first_from(scripts, p, 0);
    if seqs::first_where(scripts, p) is None {
        assert forall|j: int|
            0 <= j < scripts.len() && !(#[trigger] scripts[j]).stopping implies scripts[j].name
            != name by {
            assert(!p(scripts[j]));
        }
    }
}

/// Every script that was not told to stop is one that the configuration has.
spec fn all_wanted(c: Seq<ScriptConfigModel>, scripts: Seq<ScriptModel>) -> bool {
    forall|j: int|
        0 <= j < scripts.len() && !(#[trigger] scripts[j]).stopping ==> reload::wanted_cmd(
            c,
            scripts[j].name,
        ) == Some(scripts[j].cmd)
}

/// The script stands at `j`, and an entry among the first `n` put it there.
spec fn added_for(c: Seq<ScriptConfigModel>, a: Seq<ScriptModel>, n: int, j: int, i: int) -> bool {
    0 <= i < n && a[j] == reload::fresh_script(a.take(j), c[i])
}

spec fn was_added(c: Seq<ScriptConfigModel>, a: Seq<ScriptModel>, n: int, j: int) -> bool {
    exists|i: int| #[trigger] added_for(c, a, n, j, i)
}

spec fn has_live(a: Seq<ScriptModel>, name: Seq<char>) -> bool {
    exists|j: int| 0 <= j < a.len() && (#[trigger] a[j]).name == name && !a[j].stopping
}

proof fn lemma_added(kept: Seq<ScriptModel>, c: Seq<ScriptConfigModel>, n: int)
    requires
        0 <= n <= c.len(),
        seqs::distinct(config::names(c)),
        live_names_distinct(kept),
        all_wanted(c, kept),
    ensures
        ({
            let a = reload::with_added(kept, c.take(n));
            &&& kept.len() <= a.len()
            &&& a.take(kept.len() as int) == kept
            &&& forall|j: int| kept.len() <= j < a.len() ==> #[trigger] was_added(c, a, n, j)
            &&& forall|i: int| 0 <= i < n ==> has_live(a, (#[trigger] c[i]).name)
            &&& live_names_distinct(a)
            &&& all_wanted(c, a)
        }),
    decreases n,
{
    if n == 0 {
        assert(reload::with_added(kept, c.take(0)) == kept);
        assert(kept.take(kept.len() as int) =~= kept);
    } else {
        lemma_added(kept, c, n - 1);
        let before = reload::with_added(kept, c.take(n - 1));
        let a = reload::with_added(kept, c.take(n));
        let entry = c[n - 1];
        assert(c.take(n).drop_last() =~= c.take(n - 1));
        assert(c.take(n).last() == entry);
        lemma_live(before, entry.name);
        lemma_wanted_entry(c, n - 1);
        let here = seqs::first_where(before, script::live_named(entry.name));
        if here is Some {
            let k = here->0;
            assert(before[k].name == entry.name);
            assert(has_live(a, entry.name));
            assert forall|j: int| kept.len() <= j < a.len() implies #[trigger] was_added(
                c,
                a,
                n,
                j,
            ) by {
                assert(was_added(c, before, n - 1, j));
                let i = choose|i: int| #[trigger] added_for(c, before, n - 1, j, i);
                assert(added_for(c, a, n, j, i));
            }
        } else {
            let fresh = reload::fresh_script(before, entry);
            assert(a == before.push(fresh));
            assert(a.take(kept.len() as int) =~= kept);
            assert(a.take(before.len() as int) =~= before);
            assert forall|j: int| kept.len() <= j < a.len() implies #[trigger] was_added(
                c,
                a,
                n,
                j,
            ) by {
                if j < before.len() {
                    assert(was_added(c, before, n - 1, j));
                    let i = choose|i: int| #[trigger] added_for(c, before, n - 1, j, i);
                    assert(a.take(j) =~= before.take(j));
                    assert(added_for(c, a, n, j, i));
                } else {
                    assert(added_for(c, a, n, j, n - 1));
                }
            }
            assert forall|i: int| 0 <= i < n implies has_live(a, (#[trigger] c[i]).name) by {
                if i < n - 1 {
                    assert(has_live(before, c[i].name));
                    let j = choose|j: int|
                        0 <= j < before.len() && (#[trigger] before[j]).name == c[i].name
                            && !before[j].stopping;
                    assert(a[j].name == c[i].name && !a[j].stopping);
                } else {
                    assert(a[before.len() as int].name == entry.name);
                }
            }
        }
    }
}

/// The position of a live script in the order of the configuration is that of its entry.
proof fn lemma_rank(c: Seq<ScriptConfigModel>, s: ScriptModel)
    requires
        seqs::distinct(config::names(c)),
        !s.stopping ==> reload::wanted_cmd(c, s.name) == Some(s.cmd),
    ensures
        s.stopping ==> reload::rank(c, s) == c.len(),
        !s.stopping ==> 0 <= reload::rank(c, s) < c.len() && is_for(
            c[reload::rank(c, s)],
            s,
        ),
{
    if !s.stopping {
        let p = reload::entry_named(s.name);
        seqs::lemma_first_from(c, p, 0);
        lemma_wanted(c, s.name);
        let i = choose|i: int|
            0 <= i < c.len() && (#[trigger] c[i]).name == s.name && c[i].cmd == s.cmd;
        assert(p(c[i]));
        let k = seqs::first_where(c, p)->0;
        let all = config::names(c);
        assert(all[i] == all[k]);
    }
}

/// The live script of this name.
spec fn live_one(a: Seq<ScriptModel>, name: Seq<char>) -> ScriptModel {
    a[seqs::first_where(a, script::live_named(name))->0]
}

proof fn lemma_ranked(c: Seq<ScriptConfigModel>, a: Seq<ScriptModel>, n: int)
    requires
        0 <= n <= c.len(),
        seqs::distinct(config::names(c)),
        live_names_distinct(a),
        all_wanted(c, a),
        forall|i: int| 0 <= i < c.len() ==> has_live(a, (#[trigger] c[i]).name),
    ensures
        reload::ranked_below(c, a, n) == Seq::new(n as nat, |i: int| live_one(a, c[i].name)),
    decreases n,
{
    if n == 0 {
        assert(reload::ranked_below(c, a, 0) =~= Seq::new(0, |i: int| live_one(a, c[i].name)));
    } else {
        lemma_ranked(c, a, n - 1);
        let r = n - 1;
        let p = reload::of_rank(c, r);
        let k = seqs::first_where(a, script::live_named(c[r].name))->0;
        lemma_live(a, c[r].name);
        assert(has_live(a, c[r].name));
        lemma_rank(c, a[k]);
        let all = config::names(c);
        assert(all[reload::rank(c, a[k])] == all[r]);
        assert(p(a[k]));
        assert forall|j: int| 0 <= j < a.len() && j != k implies !p(#[trigger] a[j]) by {
            lemma_rank(c, a[j]);
        }
        seqs::lemma_filter_one(a, p, k);
        assert(reload::ranked_below(c, a, n) =~= Seq::new(
            n as nat,
            |i: int| live_one(a, c[i].name),
        ));
    }
}

proof fn lemma_ordered(c: Seq<ScriptConfigModel>, a: Seq<ScriptModel>)
    requires
        seqs::distinct(config::names(c)),
        live_names_distinct(a),
        all_wanted(c, a),
        forall|i: int| 0 <= i < c.len() ==> has_live(a, (#[trigger] c[i]).name),
    ensures
        reload::ordered(c, a) == Seq::new(c.len(), |i: int| live_one(a, c[i].name)) + a.filter(
            told_to_stop(),
        ),
{
    let n = c.len() as int;
    lemma_ranked(c, a, n);
    let p = reload::of_rank(c, n);
    assert forall|j: int| 0 <= j < a.len() implies p(#[trigger] a[j]) == told_to_stop()(a[j]) by {
        lemma_rank(c, a[j]);
    }
    seqs::lemma_filter_agree(a, p, told_to_stop());
}

/// What the steps of a reload come to: first the live scripts, one for each entry, then those
/// that are stopping.
proof fn lemma_reloaded(c: Seq<ScriptConfigModel>, scripts: Seq<ScriptModel>)
    requires
        seqs::distinct(config::names(c)),
        live_names_distinct(scripts),
    ensures
        ({
            let kept = reload::all_marked(c, scripts);
            let a = reload::with_added(kept, c);
            &&& kept.len() <= a.len()
            &&& a.take(kept.len() as int) == kept
            &&& forall|j: int|
                kept.len() <= j < a.len() ==> #[trigger] was_added(c, a, c.len() as int, j)
            &&& forall|i: int| 0 <= i < c.len() ==> has_live(a, (#[trigger] c[i]).name)
            &&& live_names_distinct(kept)
            &&& all_wanted(c, kept)
            &&& live_names_distinct(a)
            &&& all_wanted(c, a)
            &&& reload::ordered(c, a) == Seq::new(c.len(), |i: int| live_one(a, c[i].name))
                + kept.filter(told_to_stop())
        }),
{
    let kept = reload::all_marked(c, scripts);
    let a = reload::with_added(kept, c);
    assert forall|i: int, j: int|
        0 <= i < j < kept.len() && !(#[trigger] kept[i]).stopping && !(
        #[trigger] kept[j]).stopping implies kept[i].name != kept[j].name by {
        assert(!scripts[i].stopping && !scripts[j].stopping);
    }
    lemma_added(kept, c, c.len() as int);
    assert(c.take(c.len() as int) =~= c);
    lemma_ordered(c, a);
    seqs::lemma_filter_parts(a, told_to_stop(), kept.len() as int);
    let rest = a.skip(kept.len() as int);
    assert forall|j: int| 0 <= j < rest.len() implies !told_to_stop()(#[trigger] rest[j]) by {
        assert(was_added(c, a, c.len() as int, kept.len() + j));
        let i = choose|i: int| #[trigger] added_for(c, a, c.len() as int, kept.len() + j, i);
        assert(added_for(c, a, c.len() as int, kept.len() + j, i));
    }
    seqs::lemma_filter_none(rest, told_to_stop());
    assert(a.filter(told_to_stop()) =~= kept.filter(told_to_stop()));
}

/// A reload brings the scripts in line with the configuration.
pub proof fn reload_follows_the_configuration(
    c: Seq<ScriptConfigModel>,
    scripts: Seq<ScriptModel>,
)
    requires
        seqs::distinct(config::names(c)),
        live_names_distinct(scripts),
    ensures
        in_line(c, reload::reloaded(c, scripts)),
{
    lemma_reloaded(c, scripts);
    let kept = reload::all_marked(c, scripts);
    let a = reload::with_added(kept, c);
    let o = reload::ordered(c, a);
    let r = reload::reloaded(c, scripts);
    let n = c.len() as int;
    assert forall|i: int| 0 <= i < n implies !(#[trigger] r[i]).stopping && is_for(c[i], r[i]) by {
        assert(o[i] == live_one(a, c[i].name));
        assert(has_live(a, c[i].name));
        lemma_live(a, c[i].name);
        lemma_wanted_entry(c, i);
    }
    seqs::lemma_filter_has(kept, told_to_stop());
    assert forall|i: int| n <= i < r.len() implies (#[trigger] r[i]).stopping by {
        assert(o[i] == kept.filter(told_to_stop())[i - n]);
        assert(told_to_stop()(kept.filter(told_to_stop())[i - n]));
    }
    let all = config::names(c);
    assert forall|i: int, j: int|
        0 <= i < j < r.len() && !(#[trigger] r[i]).stopping && !(
        #[trigger] r[j]).stopping implies r[i].name != r[j].name by {
        assert(all[i] != all[j]);
    }
}

/// A script that the configuration has as it is stays as it is, but for its colour: it runs on
/// under the same supervisor.
pub proof fn reload_keeps_what_is_wanted(
    c: Seq<ScriptConfigModel>,
    scripts: Seq<ScriptModel>,
    i: int,
    k: int,
)
    requires
        seqs::distinct(config::names(c)),
        live_names_distinct(scripts),
        0 <= i < c.len(),
        0 <= k < scripts.len(),
        !scripts[k].stopping,
        is_for(c[i], scripts[k]),
    ensures
        reload::reloaded(c, scripts)[i] == (ScriptModel {
            color: display::palette(i),
            ..scripts[k]
        }),
{
    lemma_reloaded(c, scripts);
    let kept = reload::all_marked(c, scripts);
    let a = reload::with_added(kept, c);
    lemma_wanted_entry(c, i);
    assert(kept[k] == scripts[k]);
    assert(a.take(kept.len() as int)[k] == a[k]);
    lemma_live(a, c[i].name);
    let j = seqs::first_where(a, script::live_named(c[i].name))->0;
    assert(j == k);
    assert(reload::ordered(c, a)[i] == live_one(a, c[i].name));
}

/// For an entry that no script was running for, one is started: from its first generation on, and
/// with a slot of its own. It is shown unless the first script of that name was not.
pub proof fn reload_starts_what_is_missing(
    c: Seq<ScriptConfigModel>,
    scripts: Seq<ScriptModel>,
    i: int,
)
    requires
        seqs::distinct(config::names(c)),
        live_names_distinct(scripts),
        0 <= i < c.len(),
        forall|k: int|
            0 <= k < scripts.len() && !(#[trigger] scripts[k]).stopping ==> !is_for(
                c[i],
                scripts[k],
            ),
    ensures
        ({
            let s = reload::reloaded(c, scripts)[i];
            &&& s.run_state is Running
            &&& s.generation == 0
            &&& !script::slot_taken(scripts, s.slot)
            &&& s.visible == match seqs::first_where(scripts, script::named(c[i].name)) {
                Some(k) => scripts[k].visible,
                None => true,
            }
            &&& reload::reload_actions(c, scripts).contains(script::spawn_model(s))
        }),
{
    lemma_reloaded(c, scripts);
    let kept = reload::all_marked(c, scripts);
    let a = reload::with_added(kept, c);
    let n = c.len() as int;
    lemma_wanted_entry(c, i);
    lemma_live(a, c[i].name);
    assert(has_live(a, c[i].name));
    let j = seqs::first_where(a, script::live_named(c[i].name))->0;
    assert(reload::ordered(c, a)[i] == live_one(a, c[i].name));
    if j < kept.len() {
        assert(a.take(kept.len() as int)[j] == a[j]);
        assert(!scripts[j].stopping);
        assert(is_for(c[i], scripts[j]));
        assert(false);
    }
    assert(was_added(c, a, n, j));
    let e = choose|e: int| #[trigger] added_for(c, a, n, j, e);
    let all = config::names(c);
    assert(all[e] == all[i]);
    assert(e == i);
    let before = a.take(j);
    assert(a[j] == reload::fresh_script(before, c[i]));
    // Its slot.
    script::lemma_free_slot_is_free(before);
    if script::slot_taken(scripts, a[j].slot) {
        let k = choose|k: int|
            0 <= k < scripts.len() && #[trigger] scripts[k].slot == a[j].slot;
        assert(a.take(kept.len() as int)[k] == a[k]);
        assert(before[k].slot == a[j].slot);
        assert(script::slot_taken(before, a[j].slot));
    }
    // Whether it is shown.
    let p = script::named(c[i].name);
    seqs::lemma_first_from(before, p, 0);
    seqs::lemma_first_from(scripts, p, 0);
    let older = seqs::first_where(before, p);
    assert forall|k: int| 0 <= k < scripts.len() implies before[k].name == (
    #[trigger] scripts[k]).name && before[k].visible == scripts[k].visible by {
        assert(a.take(kept.len() as int)[k] == a[k]);
    }
    if older is Some {
        let k = older->0;
        if k >= kept.len() {
            assert(was_added(c, a, n, k));
            let f = choose|f: int| #[trigger] added_for(c, a, n, k, f);
            assert(added_for(c, a, n, k, f));
            assert(a[k].name == a[j].name);
            assert(!a[k].stopping && !a[j].stopping);
            assert(false);
        }
        assert(p(scripts[k]));
        let m = seqs::first_where(scripts, p)->0;
        assert(p(before[m]));
        assert(m == k);
    } else if seqs::first_where(scripts, p) is Some {
        let m = seqs::first_where(scripts, p)->0;
        assert(p(before[m]));
    }
    // What is asked for.
    let started = a.skip(kept.len() as int);
    let asked = reload::reload_actions(c, scripts);
    let at = reload::stops(c, scripts).len() + (j - kept.len());
    assert(asked[at] == reload::spawns(started)[j - kept.len()]);
    assert(asked[at] == script::spawn_model(started[j - kept.len()]));
    let s = reload::reloaded(c, scripts)[i];
    assert(script::spawn_model(s) == script::spawn_model(a[j]));
}

/// Scripts that the configuration does not have as they are stay behind the others, in their
/// order and as they were but told to stop.
pub proof fn reload_stops_the_rest(c: Seq<ScriptConfigModel>, scripts: Seq<ScriptModel>)
    requires
        seqs::distinct(config::names(c)),
        live_names_distinct(scripts),
    ensures
        ({
            let r = reload::reloaded(c, scripts);
            let rest = reload::all_marked(c, scripts).filter(told_to_stop());
            &&& r.len() == c.len() + rest.len()
            &&& forall|x: int|
                0 <= x < rest.len() ==> #[trigger] r[c.len() + x] == (ScriptModel {
                    color: display::palette(c.len() + x),
                    ..rest[x]
                })
        }),
{
    lemma_reloaded(c, scripts);
    let kept = reload::all_marked(c, scripts);
    let a = reload::with_added(kept, c);
    let o = reload::ordered(c, a);
    let rest = kept.filter(told_to_stop());
    let r = reload::reloaded(c, scripts);
    assert forall|x: int| 0 <= x < rest.len() implies #[trigger] r[c.len() + x] == (ScriptModel {
        color: display::palette(c.len() + x),
        ..rest[x]
    }) by {
        assert(o[c.len() + x] == rest[x]);
    }
}

/// A script that no entry is for is told to stop: it counts as stopping from then on, and its
/// supervisor is asked to stop unless it was before.
pub proof fn reload_tells_what_is_dropped(
    c: Seq<ScriptConfigModel>,
    scripts: Seq<ScriptModel>,
    k: int,
)
    requires
        0 <= k < scripts.len(),
        forall|i: int| 0 <= i < c.len() ==> !is_for(#[trigger] c[i], scripts[k]),
    ensures
        reload::all_marked(c, scripts)[k] == (ScriptModel { stopping: true, ..scripts[k] }),
        !scripts[k].stopping ==> reload::reload_actions(c, scripts).contains(
            reload::stop_model(scripts[k]),
        ),
{
    lemma_not_wanted(c, scripts[k]);
    if !scripts[k].stopping {
        let dropped = reload::dropped_by(c);
        seqs::lemma_filter_has(scripts, dropped);
        assert(dropped(scripts[k]));
        let all = scripts.filter(dropped);
        let x = choose|x: int| 0 <= x < all.len() && all[x] == scripts[k];
        assert(reload::stops(c, scripts)[x] == reload::stop_model(scripts[k]));
        assert(reload::reload_actions(c, scripts)[x] == reload::stop_model(scripts[k]));
    }
}

/// A script that no entry is for is not wanted.
proof fn lemma_not_wanted(c: Seq<ScriptConfigModel>, s: ScriptModel)
    requires
        s.stopping || forall|i: int| 0 <= i < c.len() ==> !is_for(#[trigger] c[i], s),
    ensures
        !s.stopping ==> reload::wanted_cmd(c, s.name) != Some(s.cmd),
{
    if !s.stopping {
        lemma_wanted(c, s.name);
        if reload::wanted_cmd(c, s.name) == Some(s.cmd) {
            let i = choose|i: int|
                0 <= i < c.len() && (#[trigger] c[i]).name == s.name && c[i].cmd == s.cmd;
            assert(is_for(c[i], s));
        }
    }
}

/// The request is to stop a script that ran and that no entry is for.
pub open spec fn stops_a_dropped(
    c: Seq<ScriptConfigModel>,
    scripts: Seq<ScriptModel>,
    action: ActionModel,
) -> bool {
    exists|k: int|
        0 <= k < scripts.len() && action == reload::stop_model(#[trigger] scripts[k])
            && !scripts[k].stopping && forall|i: int|
            0 <= i < c.len() ==> !is_for(#[trigger] c[i], scripts[k])
}

/// The request is to start the script of an entry that no script ran for.
pub open spec fn starts_a_missing(
    c: Seq<ScriptConfigModel>,
    scripts: Seq<ScriptModel>,
    action: ActionModel,
) -> bool {
    exists|i: int|
        0 <= i < c.len() && action == script::spawn_model(
            #[trigger] reload::reloaded(c, scripts)[i],
        ) && forall|k: int|
            0 <= k < scripts.len() && !(#[trigger] scripts[k]).stopping ==> !is_for(
                c[i],
                scripts[k],
            )
}

/// A reload asks for nothing but to stop what the configuration drops and to start what is
/// missing.
pub proof fn reload_asks_for_nothing_else(
    c: Seq<ScriptConfigModel>,
    scripts: Seq<ScriptModel>,
    x: int,
)
    requires
        seqs::distinct(config::names(c)),
        live_names_distinct(scripts),
        0 <= x < reload::reload_actions(c, scripts).len(),
    ensures
        stops_a_dropped(c, scripts, reload::reload_actions(c, scripts)[x]) || starts_a_missing(
            c,
            scripts,
            reload::reload_actions(c, scripts)[x],
        ),
{
    lemma_reloaded(c, scripts);
    let kept = reload::all_marked(c, scripts);
    let a = reload::with_added(kept, c);
    let n = c.len() as int;
    let action = reload::reload_actions(c, scripts)[x];
    let dropped = reload::dropped_by(c);
    let all = scripts.filter(dropped);
    seqs::lemma_filter_has(scripts, dropped);
    if x < all.len() {
        assert(action == reload::stop_model(all[x]));
        assert(dropped(all[x]));
        let k = choose|k: int| 0 <= k < scripts.len() && scripts[k] == all[x];
        assert forall|i: int| 0 <= i < c.len() implies !is_for(#[trigger] c[i], scripts[k]) by {
            lemma_wanted_entry(c, i);
        }
        assert(action == reload::stop_model(scripts[k]));
        assert(stops_a_dropped(c, scripts, action));
    } else {
        let j = kept.len() + (x - all.len());
        assert(action == script::spawn_model(a.skip(kept.len() as int)[x - all.len()]));
        assert(action == script::spawn_model(a[j]));
        assert(was_added(c, a, n, j));
        let i = choose|i: int| #[trigger] added_for(c, a, n, j, i);
        assert(added_for(c, a, n, j, i));
        lemma_live(a, c[i].name);
        let m = seqs::first_where(a, script::live_named(c[i].name))->0;
        assert(!a[j].stopping && a[j].name == c[i].name);
        assert(m == j);
        assert(reload::ordered(c, a)[i] == a[j]);
        assert(action == script::spawn_model(reload::reloaded(c, scripts)[i]));
        assert forall|k: int|
            0 <= k < scripts.len() && !(#[trigger] scripts[k]).stopping implies !is_for(
            c[i],
            scripts[k],
        ) by {
            if is_for(c[i], scripts[k]) {
                lemma_wanted_entry(c, i);
                assert(kept[k] == scripts[k]);
                assert(a.take(kept.len() as int)[k] == a[k]);
                assert(!a[k].stopping && a[k].name == a[j].name);
            }
        }
        assert(starts_a_missing(c, scripts, action));
    }
}

/// No two scripts have the same slot.
pub open spec fn slots_distinct(scripts: Seq<ScriptModel>) -> bool {
    forall|i: int, j: int|
        0 <= i < j < scripts.len() ==> (#[trigger] scripts[i]).slot != (#[trigger] scripts[j]).slot
}

proof fn lemma_slots_filter(scripts: Seq<ScriptModel>, p: spec_fn(ScriptModel) -> bool)
    requires
        slots_distinct(scripts),
    ensures
        slots_distinct(scripts.filter(p)),
    decreases scripts.len(),
{
    reveal(Seq::filter);
    if scripts.len() > 0 {
        let rest = scripts.drop_last();
        lemma_slots_filter(rest, p);
        seqs::lemma_filter_has(rest, p);
        let f = scripts.filter(p);
        assert forall|i: int, j: int| 0 <= i < j < f.len() implies (#[trigger] f[i]).slot != (
        #[trigger] f[j]).slot by {
            if j < rest.filter(p).len() {
                assert(rest.filter(p)[i].slot != rest.filter(p)[j].slot);
            } else {
                assert(rest.contains(rest.filter(p)[i]));
                let k = choose|k: int| 0 <= k < rest.len() && rest[k] == rest.filter(p)[i];
                assert(scripts[k].slot != scripts[scripts.len() - 1].slot);
            }
        }
    }
}

proof fn lemma_nothing_to_add(r: Seq<ScriptModel>, c: Seq<ScriptConfigModel>)
    requires
        forall|i: int| 0 <= i < c.len() ==> has_live(r, (#[trigger] c[i]).name),
    ensures
        reload::with_added(r, c) == r,
    decreases c.len(),
{
    if c.len() > 0 {
        let rest = c.drop_last();
        assert forall|i: int| 0 <= i < rest.len() implies has_live(r, (#[trigger] rest[i]).name) by {
            assert(rest[i] == c[i]);
        }
        lemma_nothing_to_add(r, rest);
        assert(has_live(r, c[c.len() - 1].name));
        lemma_live(r, c.last().name);
    }
}

proof fn lemma_in_line_marked(c: Seq<ScriptConfigModel>, r: Seq<ScriptModel>)
    requires
        seqs::distinct(config::names(c)),
        in_line(c, r),
    ensures
        reload::all_marked(c, r) == r,
        all_wanted(c, r),
        r.filter(reload::dropped_by(c)) == Seq::<ScriptModel>::empty(),
{
    assert forall|j: int| 0 <= j < r.len() && !(#[trigger] r[j]).stopping implies
        reload::wanted_cmd(c, r[j].name) == Some(r[j].cmd) by {
        lemma_wanted_entry(c, j);
    }
    assert(reload::all_marked(c, r) =~= r);
    seqs::lemma_filter_none(r, reload::dropped_by(c));
}

proof fn lemma_kept_wanted(c: Seq<ScriptConfigModel>, scripts: Seq<ScriptModel>)
    ensures
        all_wanted(c, reload::all_marked(c, scripts)),
{
}

/// Once the missing scripts are added, all that run are wanted, and one runs for every entry.
proof fn lemma_added_wanted(kept: Seq<ScriptModel>, c: Seq<ScriptConfigModel>, n: int)
    requires
        0 <= n <= c.len(),
        seqs::distinct(config::names(c)),
        all_wanted(c, kept),
    ensures
        all_wanted(c, reload::with_added(kept, c.take(n))),
        forall|i: int|
            0 <= i < n ==> has_live(
                reload::with_added(kept, c.take(n)),
                (#[trigger] c[i]).name,
            ),
    decreases n,
{
    if n > 0 {
        lemma_added_wanted(kept, c, n - 1);
        let before = reload::with_added(kept, c.take(n - 1));
        let a = reload::with_added(kept, c.take(n));
        let entry = c[n - 1];
        assert(c.take(n).drop_last() =~= c.take(n - 1));
        assert(c.take(n).last() == entry);
        lemma_live(before, entry.name);
        lemma_wanted_entry(c, n - 1);
        assert forall|i: int| 0 <= i < n implies has_live(a, (#[trigger] c[i]).name) by {
            if i < n - 1 {
                assert(has_live(before, c[i].name));
                let j = choose|j: int|
                    0 <= j < before.len() && (#[trigger] before[j]).name == c[i].name
                        && !before[j].stopping;
                assert(a[j].name == c[i].name && !a[j].stopping);
            } else if seqs::first_where(before, script::live_named(entry.name)) is Some {
                let k = seqs::first_where(before, script::live_named(entry.name))->0;
                assert(a[k].name == entry.name && !a[k].stopping);
            } else {
                assert(a[before.len() as int].name == entry.name);
            }
        }
    }
}

/// The scripts stand in the order of the configuration.
spec fn by_rank(c: Seq<ScriptConfigModel>, s: Seq<ScriptModel>) -> bool {
    forall|i: int, j: int|
        0 <= i < j < s.len() ==> reload::rank(c, #[trigger] s[i]) <= reload::rank(
            c,
            #[trigger] s[j],
        )
}

/// Every rank is the position of an entry, or the one past them.
proof fn lemma_rank_range(c: Seq<ScriptConfigModel>, s: ScriptModel)
    ensures
        0 <= reload::rank(c, s) <= c.len(),
{
    seqs::lemma_first_from(c, reload::entry_named(s.name), 0);
}

/// What stands in the ranks below `n`: scripts of those ranks, all of them, rank by rank.
proof fn lemma_ranks_sorted(c: Seq<ScriptConfigModel>, a: Seq<ScriptModel>, n: int)
    requires
        0 <= n,
    ensures
        by_rank(c, reload::ranked_below(c, a, n)),
        forall|i: int|
            0 <= i < reload::ranked_below(c, a, n).len() ==> reload::rank(
                c,
                #[trigger] reload::ranked_below(c, a, n)[i],
            ) < n && a.contains(reload::ranked_below(c, a, n)[i]),
        forall|j: int|
            0 <= j < a.len() && reload::rank(c, #[trigger] a[j]) < n ==> reload::ranked_below(
                c,
                a,
                n,
            ).contains(a[j]),
    decreases n,
{
    if n == 0 {
        assert forall|j: int| 0 <= j < a.len() implies reload::rank(c, #[trigger] a[j]) >= 0 by {
            lemma_rank_range(c, a[j]);
        }
    } else {
        lemma_ranks_sorted(c, a, n - 1);
        let before = reload::ranked_below(c, a, n - 1);
        let more = a.filter(reload::of_rank(c, n - 1));
        let all = reload::ranked_below(c, a, n);
        assert(all == before + more);
        seqs::lemma_filter_has(a, reload::of_rank(c, n - 1));
        assert forall|i: int| 0 <= i < all.len() implies reload::rank(c, #[trigger] all[i]) < n
            && a.contains(all[i]) by {
            if i < before.len() {
                assert(all[i] == before[i]);
            } else {
                assert(all[i] == more[i - before.len()]);
                assert(reload::of_rank(c, n - 1)(more[i - before.len()]));
            }
        }
        assert forall|i: int, j: int| 0 <= i < j < all.len() implies reload::rank(
            c,
            #[trigger] all[i],
        ) <= reload::rank(c, #[trigger] all[j]) by {
            if j < before.len() {
                assert(all[i] == before[i] && all[j] == before[j]);
            } else {
                assert(all[j] == more[j - before.len()]);
                assert(reload::of_rank(c, n - 1)(more[j - before.len()]));
                if i < before.len() {
                    assert(all[i] == before[i]);
                } else {
                    assert(all[i] == more[i - before.len()]);
                    assert(reload::of_rank(c, n - 1)(more[i - before.len()]));
                }
            }
        }
        assert forall|j: int| 0 <= j < a.len() && reload::rank(c, #[trigger] a[j]) < n implies
            all.contains(a[j]) by {
            if reload::rank(c, a[j]) < n - 1 {
                let k = choose|k: int| 0 <= k < before.len() && before[k] == a[j];
                assert(all[k] == a[j]);
            } else if reload::rank(c, a[j]) == n - 1 {
                assert(reload::of_rank(c, n - 1)(a[j]));
                let k = choose|k: int| 0 <= k < more.len() && more[k] == a[j];
                assert(all[before.len() + k] == a[j]);
            }
        }
    }
}

/// `k` is where the scripts of rank `n` and above begin.
spec fn begins_at(c: Seq<ScriptConfigModel>, s: Seq<ScriptModel>, n: int, k: int) -> bool {
    &&& 0 <= k <= s.len()
    &&& forall|i: int| 0 <= i < k ==> reload::rank(c, #[trigger] s[i]) < n
    &&& forall|i: int| k <= i < s.len() ==> reload::rank(c, #[trigger] s[i]) >= n
}

/// Scripts that stand in order stay where they are.
proof fn lemma_sorted_stays(c: Seq<ScriptConfigModel>, s: Seq<ScriptModel>, n: int) -> (k: int)
    requires
        0 <= n,
        by_rank(c, s),
    ensures
        begins_at(c, s, n, k),
        reload::ranked_below(c, s, n) == s.take(k),
    decreases n,
{
    if n == 0 {
        assert forall|i: int| 0 <= i < s.len() implies reload::rank(c, #[trigger] s[i]) >= 0 by {
            lemma_rank_range(c, s[i]);
        }
        assert(reload::ranked_below(c, s, 0) =~= s.take(0));
        0
    } else {
        let from = lemma_sorted_stays(c, s, n - 1);
        let to = lemma_rank_ends(c, s, n, from);
        let p = reload::of_rank(c, n - 1);
        let rest = s.skip(from);
        let part = rest.take(to - from);
        let after = rest.skip(to - from);
        seqs::lemma_filter_parts(s, p, from);
        seqs::lemma_filter_parts(rest, p, to - from);
        assert forall|i: int| 0 <= i < from implies !p(#[trigger] s.take(from)[i]) by {
            assert(reload::rank(c, s[i]) < n - 1);
        }
        seqs::lemma_filter_none(s.take(from), p);
        assert forall|i: int| 0 <= i < part.len() implies p(#[trigger] part[i]) by {
            assert(part[i] == s[from + i]);
        }
        seqs::lemma_filter_all(part, p);
        assert forall|i: int| 0 <= i < after.len() implies !p(#[trigger] after[i]) by {
            assert(after[i] == s[to + i]);
        }
        seqs::lemma_filter_none(after, p);
        assert(reload::ranked_below(c, s, n) =~= s.take(to));
        to
    }
}

/// Where the scripts of rank `n` and above begin, looked for from `from` on.
proof fn lemma_rank_ends(
    c: Seq<ScriptConfigModel>,
    s: Seq<ScriptModel>,
    n: int,
    from: int,
) -> (k: int)
    requires
        by_rank(c, s),
        0 <= from <= s.len(),
        forall|i: int| 0 <= i < from ==> reload::rank(c, #[trigger] s[i]) < n,
    ensures
        from <= k,
        begins_at(c, s, n, k),
    decreases s.len() - from,
{
    if from == s.len() {
        from
    } else if reload::rank(c, s[from]) < n {
        lemma_rank_ends(c, s, n, from + 1)
    } else {
        assert forall|i: int| from <= i < s.len() implies reload::rank(c, #[trigger] s[i]) >= n by {
            if i > from {
                assert(reload::rank(c, s[from]) <= reload::rank(c, s[i]));
            }
        }
        from
    }
}

proof fn lemma_added_slots(kept: Seq<ScriptModel>, c: Seq<ScriptConfigModel>)
    requires
        slots_distinct(kept),
    ensures
        slots_distinct(reload::with_added(kept, c)),
    decreases c.len(),
{
    if c.len() > 0 {
        lemma_added_slots(kept, c.drop_last());
        let before = reload::with_added(kept, c.drop_last());
        let a = reload::with_added(kept, c);
        script::lemma_free_slot_is_free(before);
        assert forall|i: int, j: int| 0 <= i < j < a.len() implies (#[trigger] a[i]).slot != (
        #[trigger] a[j]).slot by {
            if j < before.len() {
                assert(before[i].slot != before[j].slot);
            } else if before[i].slot == a[j].slot {
                assert(script::slot_taken(before, a[j].slot));
            }
        }
    }
}

proof fn lemma_ranked_slots(c: Seq<ScriptConfigModel>, a: Seq<ScriptModel>, n: int)
    requires
        0 <= n,
        slots_distinct(a),
    ensures
        slots_distinct(reload::ranked_below(c, a, n)),
    decreases n,
{
    if n > 0 {
        let p = reload::of_rank(c, n - 1);
        lemma_ranked_slots(c, a, n - 1);
        lemma_ranks_sorted(c, a, n - 1);
        lemma_slots_filter(a, p);
        seqs::lemma_filter_has(a, p);
        let before = reload::ranked_below(c, a, n - 1);
        let more = a.filter(p);
        let all = reload::ranked_below(c, a, n);
        assert(all == before + more);
        assert forall|i: int, j: int| 0 <= i < j < all.len() implies (#[trigger] all[i]).slot != (
        #[trigger] all[j]).slot by {
            if j < before.len() {
                assert(before[i].slot != before[j].slot);
            } else if i >= before.len() {
                assert(more[i - before.len()].slot != more[j - before.len()].slot);
            } else {
                assert(reload::rank(c, before[i]) < n - 1 && a.contains(before[i]));
                assert(p(more[j - before.len()]) && a.contains(more[j - before.len()]));
                let x = choose|x: int| 0 <= x < a.len() && a[x] == before[i];
                let y = choose|y: int| 0 <= y < a.len() && a[y] == more[j - before.len()];
                assert(x != y);
                assert(a[x].slot != a[y].slot);
            }
        }
    }
}

/// A reload gives no script the slot of another.
pub proof fn reload_keeps_slots_apart(c: Seq<ScriptConfigModel>, scripts: Seq<ScriptModel>)
    requires
        slots_distinct(scripts),
    ensures
        slots_distinct(reload::reloaded(c, scripts)),
{
    let kept = reload::all_marked(c, scripts);
    assert forall|i: int, j: int| 0 <= i < j < kept.len() implies (#[trigger] kept[i]).slot != (
    #[trigger] kept[j]).slot by {
        assert(scripts[i].slot != scripts[j].slot);
    }
    lemma_added_slots(kept, c);
    let a = reload::with_added(kept, c);
    lemma_ranked_slots(c, a, c.len() as int + 1);
    let o = reload::ordered(c, a);
    let r = reload::reloaded(c, scripts);
    assert forall|i: int, j: int| 0 <= i < j < r.len() implies (#[trigger] r[i]).slot != (
    #[trigger] r[j]).slot by {
        assert(o[i].slot != o[j].slot);
    }
}

/// What holds of the scripts after any reload: all that run are wanted, one runs for every entry,
/// and they stand in order, each in the colour of its position.
proof fn lemma_settled(c: Seq<ScriptConfigModel>, scripts: Seq<ScriptModel>)
    requires
        seqs::distinct(config::names(c)),
    ensures
        ({
            let r = reload::reloaded(c, scripts);
            &&& all_wanted(c, r)
            &&& forall|i: int| 0 <= i < c.len() ==> has_live(r, (#[trigger] c[i]).name)
            &&& by_rank(c, r)
            &&& reload::recolored(r) == r
        }),
{
    let kept = reload::all_marked(c, scripts);
    let a = reload::with_added(kept, c);
    let o = reload::ordered(c, a);
    let r = reload::reloaded(c, scripts);
    let n = c.len() as int + 1;
    lemma_kept_wanted(c, scripts);
    lemma_added_wanted(kept, c, c.len() as int);
    assert(c.take(c.len() as int) =~= c);
    lemma_ranks_sorted(c, a, n);
    assert forall|i: int| 0 <= i < r.len() implies reload::rank(c, #[trigger] r[i])
        == reload::rank(c, o[i]) && r[i].name == o[i].name && r[i].cmd == o[i].cmd
        && r[i].stopping == o[i].stopping by {}
    assert forall|j: int| 0 <= j < r.len() && !(#[trigger] r[j]).stopping implies
        reload::wanted_cmd(c, r[j].name) == Some(r[j].cmd) by {
        assert(a.contains(o[j]));
        let k = choose|k: int| 0 <= k < a.len() && a[k] == o[j];
        assert(!a[k].stopping);
    }
    assert forall|i: int| 0 <= i < c.len() implies has_live(r, (#[trigger] c[i]).name) by {
        assert(has_live(a, c[i].name));
        let j = choose|j: int|
            0 <= j < a.len() && (#[trigger] a[j]).name == c[i].name && !a[j].stopping;
        lemma_rank_range(c, a[j]);
        assert(o.contains(a[j]));
        let k = choose|k: int| 0 <= k < o.len() && o[k] == a[j];
        assert(r[k].name == c[i].name && !r[k].stopping);
    }
    assert(by_rank(c, r)) by {
        assert forall|i: int, j: int| 0 <= i < j < r.len() implies reload::rank(
            c,
            #[trigger] r[i],
        ) <= reload::rank(c, #[trigger] r[j]) by {
            assert(reload::rank(c, o[i]) <= reload::rank(c, o[j]));
        }
    }
    assert(reload::recolored(r) =~= r);
}

/// Scripts that stand in order stay as they are when they are put in order.
proof fn lemma_order_stays(c: Seq<ScriptConfigModel>, r: Seq<ScriptModel>)
    requires
        by_rank(c, r),
    ensures
        reload::ordered(c, r) == r,
{
    let k = lemma_sorted_stays(c, r, c.len() as int + 1);
    if k < r.len() {
        lemma_rank_range(c, r[k]);
    }
    assert(r.take(k) =~= r);
}

/// A configuration that the scripts are in line with changes nothing and asks for nothing.
pub proof fn reload_in_line_changes_nothing(c: Seq<ScriptConfigModel>, r: Seq<ScriptModel>)
    requires
        seqs::distinct(config::names(c)),
        in_line(c, r),
    ensures
        reload::reloaded(c, r) == r,
        reload::reload_actions(c, r) == Seq::<ActionModel>::empty(),
{
    lemma_in_line_marked(c, r);
    assert forall|i: int| 0 <= i < c.len() implies has_live(r, (#[trigger] c[i]).name) by {
        assert(r[i].name == c[i].name && !r[i].stopping);
    }
    lemma_nothing_to_add(r, c);
    let all = config::names(c);
    assert forall|i: int, j: int| 0 <= i < j < r.len() implies reload::rank(c, #[trigger] r[i])
        <= reload::rank(c, #[trigger] r[j]) by {
        lemma_rank(c, r[i]);
        lemma_rank(c, r[j]);
        if i < c.len() {
            assert(all[reload::rank(c, r[i])] == all[i]);
        }
        if j < c.len() {
            assert(all[reload::rank(c, r[j])] == all[j]);
        }
    }
    lemma_order_stays(c, r);
    assert(reload::recolored(r) =~= r);
    assert(reload::reload_actions(c, r) =~= Seq::<ActionModel>::empty());
}

/// A configuration that is loaded once more changes nothing and asks for nothing.
pub proof fn reload_again_changes_nothing(c: Seq<ScriptConfigModel>, scripts: Seq<ScriptModel>)
    requires
        seqs::distinct(config::names(c)),
    ensures
        reload::reloaded(c, reload::reloaded(c, scripts)) == reload::reloaded(c, scripts),
        reload::reload_actions(c, reload::reloaded(c, scripts)) == Seq::<ActionModel>::empty(),
{
    let r = reload::reloaded(c, scripts);
    lemma_settled(c, scripts);
    assert(reload::all_marked(c, r) =~= r);
    seqs::lemma_filter_none(r, reload::dropped_by(c));
    lemma_nothing_to_add(r, c);
    lemma_order_stays(c, r);
    assert(reload::reload_actions(c, r) =~= Seq::<ActionModel>::empty());
}

/// A reload starts scripts in slots that none before them has, and then only puts them in order.
pub proof fn lemma_reload_steps(c: Seq<ScriptConfigModel>, scripts: Seq<ScriptModel>)
    requires
        seqs::distinct(config::names(c)),
        live_names_distinct(scripts),
    ensures
        ({
            let kept = reload::all_marked(c, scripts);
            let a = reload::with_added(kept, c);
            let r = reload::reloaded(c, scripts);
            &&& kept.len() <= a.len()
            &&& a.take(kept.len() as int) == kept
            &&& forall|j: int|
                kept.len() <= j < a.len() ==> !(#[trigger] a[j]).stopping && !script::slot_taken(
                    a.take(j),
                    a[j].slot,
                )
            &&& forall|i: int|
                0 <= i < r.len() ==> exists|j: int|
                    0 <= j < a.len() && #[trigger] r[i] == (ScriptModel {
                        color: display::palette(i),
                        ..#[trigger] a[j]
                    })
        }),
{
    lemma_reloaded(c, scripts);
    let kept = reload::all_marked(c, scripts);
    let a = reload::with_added(kept, c);
    let r = reload::reloaded(c, scripts);
    let n = c.len() as int;
    assert forall|j: int| kept.len() <= j < a.len() implies !(#[trigger] a[j]).stopping
        && !script::slot_taken(a.take(j), a[j].slot) by {
        assert(was_added(c, a, n, j));
        let e = choose|e: int| #[trigger] added_for(c, a, n, j, e);
        assert(added_for(c, a, n, j, e));
        script::lemma_free_slot_is_free(a.take(j));
    }
    seqs::lemma_filter_has(kept, told_to_stop());
    let rest = kept.filter(told_to_stop());
    let o = reload::ordered(c, a);
    assert forall|i: int| 0 <= i < r.len() implies exists|j: int|
        0 <= j < a.len() && #[trigger] r[i] == (ScriptModel {
            color: display::palette(i),
            ..#[trigger] a[j]
        }) by {
        if i < n {
            assert(has_live(a, c[i].name));
            lemma_live(a, c[i].name);
            let j = seqs::first_where(a, script::live_named(c[i].name))->0;
            assert(o[i] == a[j]);
            assert(r[i] == (ScriptModel { color: display::palette(i), ..a[j] }));
        } else {
            assert(o[i] == rest[i - n]);
            assert(kept.contains(rest[i - n]));
            let j = choose|j: int| 0 <= j < kept.len() && kept[j] == rest[i - n];
            assert(a.take(kept.len() as int)[j] == a[j]);
            assert(r[i] == (ScriptModel { color: display::palette(i), ..a[j] }));
        }
    }
}

/// The entry at `i` is the last of this name.
pub open spec fn is_last_entry(c: Seq<ScriptConfigModel>, name: Seq<char>, i: int) -> bool {
    &&& 0 <= i < c.len()
    &&& c[i].name == name
    &&& forall|j: int| i < j < c.len() ==> (#[trigger] c[j]).name != name
}

proof fn lemma_last_entry(c: Seq<ScriptConfigModel>, name: Seq<char>, i: int)
    requires
        is_last_entry(c, name, i),
    ensures
        reload::wanted_cmd(c, name) == Some(c[i].cmd),
    decreases c.len(),
{
    if i < c.len() - 1 {
        assert(c[c.len() - 1].name != name);
        let rest = c.drop_last();
        assert forall|j: int| i < j < rest.len() implies (#[trigger] rest[j]).name != name by {
            assert(rest[j] == c[j]);
        }
        assert(is_last_entry(rest, name, i));
        lemma_last_entry(rest, name, i);
    }
}

/// A reload tells a script to stop if the last entry of its name has another command, and leaves
/// it alone if that has the same. Where a script was told to stop before, nothing about it
/// changes.
pub proof fn the_last_entry_of_a_name_counts(
    c: Seq<ScriptConfigModel>,
    scripts: Seq<ScriptModel>,
    k: int,
    i: int,
)
    requires
        0 <= k < scripts.len(),
        is_last_entry(c, scripts[k].name, i),
    ensures
        scripts[k].stopping || scripts[k].cmd == c[i].cmd ==> reload::all_marked(c, scripts)[k]
            == scripts[k],
        scripts[k].cmd != c[i].cmd ==> reload::all_marked(c, scripts)[k] == (ScriptModel {
            stopping: true,
            ..scripts[k]
        }),
{
    lemma_last_entry(c, scripts[k].name, i);
}

/// A reload asks for stops first and for starts then, and for nothing else.
pub proof fn stops_come_before_starts(
    c: Seq<ScriptConfigModel>,
    scripts: Seq<ScriptModel>,
    x: int,
    y: int,
)
    requires
        0 <= x < y < reload::reload_actions(c, scripts).len(),
    ensures
        ({
            let asked = reload::reload_actions(c, scripts);
            &&& asked[x] is Stop || asked[x] is Spawn
            &&& asked[y] is Stop || asked[y] is Spawn
            &&& asked[x] is Spawn ==> asked[y] is Spawn
        }),
{
    let n = reload::stops(c, scripts).len();
    let asked = reload::reload_actions(c, scripts);
    assert(forall|i: int| 0 <= i < n ==> asked[i] == #[trigger] reload::stops(c, scripts)[i]);
}

/// A reload asks for each stop and for each start once: no slot is stopped twice, and none is
/// started twice.
pub proof fn each_is_asked_for_once(
    c: Seq<ScriptConfigModel>,
    scripts: Seq<ScriptModel>,
    x: int,
    y: int,
)
    requires
        slots_distinct(scripts),
        0 <= x < y < reload::reload_actions(c, scripts).len(),
    ensures
        ({
            let asked = reload::reload_actions(c, scripts);
            match (asked[x], asked[y]) {
                (ActionModel::Stop { slot: a }, ActionModel::Stop { slot: b }) => a != b,
                (
                    ActionModel::Spawn { slot: a, .. },
                    ActionModel::Spawn { slot: b, .. },
                ) => a != b,
                _ => true,
            }
        }),
{
    let kept = reload::all_marked(c, scripts);
    assert forall|i: int, j: int| 0 <= i < j < kept.len() implies (#[trigger] kept[i]).slot != (
    #[trigger] kept[j]).slot by {
        assert(scripts[i].slot != scripts[j].slot);
    }
    lemma_slots_filter(scripts, reload::dropped_by(c));
    lemma_added_slots(kept, c);
    lemma_starts_in_order(kept, c);
    let dropped = scripts.filter(reload::dropped_by(c));
    let a = reload::with_added(kept, c);
    let asked = reload::reload_actions(c, scripts);
    let n = dropped.len() as int;
    if y < n {
        assert(asked[x] == reload::stop_model(dropped[x]));
        assert(asked[y] == reload::stop_model(dropped[y]));
    } else {
        let fresh = a.skip(kept.len() as int);
        assert(asked[y] == script::spawn_model(fresh[y - n]));
        assert(fresh[y - n] == a[kept.len() + (y - n)]);
        if x >= n {
            assert(asked[x] == script::spawn_model(fresh[x - n]));
            assert(fresh[x - n] == a[kept.len() + (x - n)]);
        } else {
            assert(asked[x] == reload::stop_model(dropped[x]));
        }
    }
}

/// Of two scripts that were added, the entry of the first comes before that of the second.
spec fn added_in_order(c: Seq<ScriptConfigModel>, a: Seq<ScriptModel>, p: int, q: int) -> bool {
    exists|i: int, j: int| #[trigger] entries_in_order(c, a, p, q, i, j)
}

spec fn entries_in_order(
    c: Seq<ScriptConfigModel>,
    a: Seq<ScriptModel>,
    p: int,
    q: int,
    i: int,
    j: int,
) -> bool {
    &&& 0 <= i < j < c.len()
    &&& c[i].name == a[p].name && c[i].cmd == a[p].cmd
    &&& c[j].name == a[q].name && c[j].cmd == a[q].cmd
}

spec fn has_entry(c: Seq<ScriptConfigModel>, s: ScriptModel) -> bool {
    exists|i: int| 0 <= i < c.len() && is_for(#[trigger] c[i], s)
}

proof fn lemma_starts_in_order(kept: Seq<ScriptModel>, c: Seq<ScriptConfigModel>)
    ensures
        ({
            let a = reload::with_added(kept, c);
            &&& kept.len() <= a.len()
            &&& forall|p: int| kept.len() <= p < a.len() ==> has_entry(c, #[trigger] a[p])
            &&& forall|p: int, q: int|
                kept.len() <= p < q < a.len() ==> #[trigger] added_in_order(c, a, p, q)
        }),
    decreases c.len(),
{
    if c.len() > 0 {
        let rest = c.drop_last();
        let last = c.len() - 1;
        lemma_starts_in_order(kept, rest);
        let before = reload::with_added(kept, rest);
        let a = reload::with_added(kept, c);
        assert forall|p: int| kept.len() <= p < a.len() implies has_entry(c, #[trigger] a[p]) by {
            if p < before.len() {
                assert(a[p] == before[p]);
                assert(has_entry(rest, before[p]));
                let i = choose|i: int| 0 <= i < rest.len() && is_for(#[trigger] rest[i], before[p]);
                assert(is_for(c[i], a[p]));
            } else {
                assert(is_for(c[last], a[p]));
            }
        }
        assert forall|p: int, q: int| kept.len() <= p < q < a.len() implies #[trigger]
            added_in_order(c, a, p, q) by {
            if q < before.len() {
                assert(added_in_order(rest, before, p, q));
                let (i, j) = choose|i: int, j: int| #[trigger]
                    entries_in_order(rest, before, p, q, i, j);
                assert(entries_in_order(c, a, p, q, i, j));
            } else {
                assert(a[p] == before[p]);
                assert(has_entry(rest, before[p]));
                let i = choose|i: int| 0 <= i < rest.len() && is_for(#[trigger] rest[i], before[p]);
                assert(is_for(rest[i], before[p]));
                assert(entries_in_order(c, a, p, q, i, last));
            }
        }
    }
}

/// The requests are to start these two entries.
pub open spec fn starts_both(
    c: Seq<ScriptConfigModel>,
    a: ActionModel,
    b: ActionModel,
    i: int,
    j: int,
) -> bool {
    &&& 0 <= i < c.len()
    &&& 0 <= j < c.len()
    &&& a matches ActionModel::Spawn { name, cmd, .. } && name == c[i].name && cmd == c[i].cmd
    &&& b matches ActionModel::Spawn { name, cmd, .. } && name == c[j].name && cmd == c[j].cmd
}

/// A reload asks for starts in the order of the configuration.
pub proof fn starts_go_in_order(
    c: Seq<ScriptConfigModel>,
    scripts: Seq<ScriptModel>,
    x: int,
    y: int,
)
    requires
        0 <= x < y < reload::reload_actions(c, scripts).len(),
        reload::reload_actions(c, scripts)[x] is Spawn,
        reload::reload_actions(c, scripts)[y] is Spawn,
    ensures
        exists|i: int, j: int|
            i < j && #[trigger] starts_both(
                c,
                reload::reload_actions(c, scripts)[x],
                reload::reload_actions(c, scripts)[y],
                i,
                j,
            ),
{
    let kept = reload::all_marked(c, scripts);
    let a = reload::with_added(kept, c);
    let asked = reload::reload_actions(c, scripts);
    let n = reload::stops(c, scripts).len() as int;
    lemma_starts_in_order(kept, c);
    if x < n {
        assert(asked[x] == reload::stops(c, scripts)[x]);
        assert(false);
    }
    let fresh = a.skip(kept.len() as int);
    let p = kept.len() + (x - n);
    let q = kept.len() + (y - n);
    assert(asked[x] == script::spawn_model(fresh[x - n]));
    assert(asked[y] == script::spawn_model(fresh[y - n]));
    assert(fresh[x - n] == a[p] && fresh[y - n] == a[q]);
    assert(added_in_order(c, a, p, q));
    let (i, j) = choose|i: int, j: int| #[trigger] entries_in_order(c, a, p, q, i, j);
    assert(starts_both(c, asked[x], asked[y], i, j));
}

/// A reload asks for stops in the order of the scripts.
pub proof fn stops_go_in_order(
    c: Seq<ScriptConfigModel>,
    scripts: Seq<ScriptModel>,
    k: int,
    l: int,
)
    requires
        0 <= k < l < scripts.len(),
        !scripts[k].stopping,
        !scripts[l].stopping,
        forall|i: int| 0 <= i < c.len() ==> !is_for(#[trigger] c[i], scripts[k]),
        forall|i: int| 0 <= i < c.len() ==> !is_for(#[trigger] c[i], scripts[l]),
    ensures
        exists|x: int, y: int|
            0 <= x < y < reload::reload_actions(c, scripts).len() && #[trigger]
                reload::reload_actions(c, scripts)[x] == (ActionModel::Stop {
                slot: scripts[k].slot,
            }) && #[trigger] reload::reload_actions(c, scripts)[y] == (ActionModel::Stop {
                slot: scripts[l].slot,
            }),
{
    let p = reload::dropped_by(c);
    lemma_not_wanted(c, scripts[k]);
    lemma_not_wanted(c, scripts[l]);
    let first = scripts.take(l);
    let rest = scripts.skip(l);
    seqs::lemma_filter_parts(scripts, p, l);
    seqs::lemma_filter_has(first, p);
    seqs::lemma_filter_has(rest, p);
    assert(first[k] == scripts[k] && p(first[k]));
    assert(rest[0] == scripts[l] && p(rest[0]));
    assert(first.filter(p).contains(first[k]));
    assert(rest.filter(p).contains(rest[0]));
    let x = choose|x: int| 0 <= x < first.filter(p).len() && first.filter(p)[x] == first[k];
    let z = choose|z: int| 0 <= z < rest.filter(p).len() && rest.filter(p)[z] == rest[0];
    let y = first.filter(p).len() + z;
    let all = scripts.filter(p);
    assert(all[x] == scripts[k]);
    assert(all[y] == scripts[l]);
    let asked = reload::reload_actions(c, scripts);
    assert(asked[x] == reload::stop_model(all[x]));
    assert(asked[y] == reload::stop_model(all[y]));
}

// ---------------------------------------------------------------------------
// Reloads of any configuration, step by step
// ---------------------------------------------------------------------------

/// The place of a script in the order of the configuration is `p`: that of the first entry of its
/// name, or, where it is stopping or has no entry, the one behind all entries.
pub open spec fn stands_at(c: Seq<ScriptConfigModel>, s: ScriptModel, p: int) -> bool {
    if !s.stopping && exists|i: int| 0 <= i < c.len() && (#[trigger] c[i]).name == s.name {
        &&& 0 <= p < c.len()
        &&& c[p].name == s.name
        &&& forall|i: int| 0 <= i < p ==> (#[trigger] c[i]).name != s.name
    } else {
        p == c.len()
    }
}

/// Scripts whose place is `p`.
pub open spec fn standing_at(c: Seq<ScriptConfigModel>, p: int) -> spec_fn(ScriptModel) -> bool {
    |s: ScriptModel| stands_at(c, s, p)
}

proof fn lemma_rank_is_place(c: Seq<ScriptConfigModel>, s: ScriptModel, p: int)
    ensures
        stands_at(c, s, p) <==> reload::rank(c, s) == p,
{
    let q = reload::entry_named(s.name);
    seqs::lemma_first_from(c, q, 0);
    match seqs::first_where(c, q) {
        Some(k) => {
            assert(q(c[k]));
            assert forall|i: int| 0 <= i < k implies (#[trigger] c[i]).name != s.name by {
                assert(!q(c[i]));
            }
            if !s.stopping {
                assert(stands_at(c, s, k));
                if stands_at(c, s, p) && p != k {
                    if p < k {
                        assert(c[p].name != s.name);
                    } else {
                        assert(c[k].name != s.name);
                    }
                }
            }
        },
        None => {
            assert forall|i: int| 0 <= i < c.len() implies (#[trigger] c[i]).name != s.name by {
                assert(!q(c[i]));
            }
        },
    }
}

/// After a reload the scripts stand in the order of the configuration, those that are stopping
/// last.
pub proof fn reloaded_scripts_stand_in_order(
    c: Seq<ScriptConfigModel>,
    scripts: Seq<ScriptModel>,
    i: int,
    j: int,
    p: int,
    q: int,
)
    requires
        0 <= i < j < reload::reloaded(c, scripts).len(),
        stands_at(c, reload::reloaded(c, scripts)[i], p),
        stands_at(c, reload::reloaded(c, scripts)[j], q),
    ensures
        p <= q,
{
    let r = reload::reloaded(c, scripts);
    let a = reload::with_added(reload::all_marked(c, scripts), c);
    let o = reload::ordered(c, a);
    lemma_rank_is_place(c, r[i], p);
    lemma_rank_is_place(c, r[j], q);
    lemma_ranks_sorted(c, a, c.len() as int + 1);
    assert(reload::rank(c, o[i]) <= reload::rank(c, o[j]));
}

proof fn lemma_filter_more(
    a: Seq<ScriptModel>,
    b: Seq<ScriptModel>,
    p: spec_fn(ScriptModel) -> bool,
)
    ensures
        (a + b).filter(p) == a.filter(p) + b.filter(p),
{
    seqs::lemma_filter_parts(a + b, p, a.len() as int);
    assert((a + b).take(a.len() as int) =~= a);
    assert((a + b).skip(a.len() as int) =~= b);
}

proof fn lemma_one_rank(c: Seq<ScriptConfigModel>, a: Seq<ScriptModel>, n: int, r: int)
    ensures
        reload::ranked_below(c, a, n).filter(reload::of_rank(c, r)) == (if 0 <= r < n {
            a.filter(reload::of_rank(c, r))
        } else {
            Seq::<ScriptModel>::empty()
        }),
    decreases n,
{
    let p = reload::of_rank(c, r);
    if n <= 0 {
        seqs::lemma_filter_none(Seq::<ScriptModel>::empty(), p);
    } else {
        lemma_one_rank(c, a, n - 1, r);
        let before = reload::ranked_below(c, a, n - 1);
        let more = a.filter(reload::of_rank(c, n - 1));
        lemma_filter_more(before, more, p);
        seqs::lemma_filter_has(a, reload::of_rank(c, n - 1));
        if r == n - 1 {
            assert forall|i: int| 0 <= i < more.len() implies p(#[trigger] more[i]) by {}
            seqs::lemma_filter_all(more, p);
            assert(Seq::<ScriptModel>::empty() + more =~= more);
        } else {
            assert forall|i: int| 0 <= i < more.len() implies !p(#[trigger] more[i]) by {
                assert(reload::of_rank(c, n - 1)(more[i]));
            }
            seqs::lemma_filter_none(more, p);
            assert(before.filter(p) + Seq::<ScriptModel>::empty() =~= before.filter(p));
        }
    }
}

/// Ordering loses no script and adds none, and scripts of the same place keep their order.
pub proof fn ordering_keeps_the_scripts(
    c: Seq<ScriptConfigModel>,
    a: Seq<ScriptModel>,
    p: int,
)
    ensures
        reload::ordered(c, a).filter(standing_at(c, p)) == a.filter(standing_at(c, p)),
{
    let o = reload::ordered(c, a);
    let f = standing_at(c, p);
    let g = reload::of_rank(c, p);
    assert forall|i: int| 0 <= i < a.len() implies f(#[trigger] a[i]) == g(a[i]) by {
        lemma_rank_is_place(c, a[i], p);
    }
    assert forall|i: int| 0 <= i < o.len() implies f(#[trigger] o[i]) == g(o[i]) by {
        lemma_rank_is_place(c, o[i], p);
    }
    seqs::lemma_filter_agree(a, f, g);
    seqs::lemma_filter_agree(o, f, g);
    lemma_one_rank(c, a, c.len() as int + 1, p);
    if !(0 <= p < c.len() + 1) {
        assert forall|i: int| 0 <= i < a.len() implies !g(#[trigger] a[i]) by {
            lemma_rank_range(c, a[i]);
        }
        seqs::lemma_filter_none(a, g);
    }
}

/// A reload marks the scripts that are dropped, adds those that are missing, and puts all in
/// order, each in the colour of its position; but for the colour, ordering changes none of them.
pub proof fn a_reload_in_steps(c: Seq<ScriptConfigModel>, scripts: Seq<ScriptModel>, i: int)
    requires
        0 <= i < reload::reloaded(c, scripts).len(),
    ensures
        ({
            let r = reload::reloaded(c, scripts);
            let o = reload::ordered(
                c,
                reload::with_added(reload::all_marked(c, scripts), c),
            );
            &&& r.len() == o.len()
            &&& r[i].color == display::palette(i)
            &&& r[i].name == o[i].name
            &&& r[i].cmd == o[i].cmd
            &&& r[i].visible == o[i].visible
            &&& r[i].run_state == o[i].run_state
            &&& r[i].slot == o[i].slot
            &&& r[i].stopping == o[i].stopping
            &&& r[i].generation == o[i].generation
        }),
        reload::all_marked(c, scripts).len() == scripts.len(),
{
}

/// One more entry in the configuration adds a script at the end, unless one runs for its name:
/// one that runs, in its first generation, with the command of the entry and a slot that no
/// script before it has. It is shown, unless the first script of its name is not.
pub proof fn one_more_entry_adds_what_is_missing(
    scripts: Seq<ScriptModel>,
    c: Seq<ScriptConfigModel>,
    e: ScriptConfigModel,
)
    ensures
        reload::with_added(scripts, Seq::empty()) == scripts,
        ({
            let before = reload::with_added(scripts, c);
            let after = reload::with_added(scripts, c.push(e));
            let s = after.last();
            if exists|j: int|
                0 <= j < before.len() && (#[trigger] before[j]).name == e.name
                    && !before[j].stopping {
                after == before
            } else {
                &&& after.len() == before.len() + 1
                &&& after.drop_last() == before
                &&& s.name == e.name
                &&& s.cmd == e.cmd
                &&& s.run_state is Running
                &&& !s.stopping
                &&& s.generation == 0
                &&& forall|j: int|
                    0 <= j < before.len() ==> (#[trigger] before[j]).slot != s.slot
                &&& s.visible == match seqs::first_where(before, script::named(e.name)) {
                    Some(k) => before[k].visible,
                    None => true,
                }
            }
        }),
{
    let before = reload::with_added(scripts, c);
    let after = reload::with_added(scripts, c.push(e));
    assert(c.push(e).drop_last() =~= c);
    lemma_live(before, e.name);
    script::lemma_free_slot_is_free(before);
    if seqs::first_where(before, script::live_named(e.name)) is None {
        assert(after.drop_last() =~= before);
        assert forall|j: int| 0 <= j < before.len() implies (#[trigger] before[j]).slot
            != after.last().slot by {
            if before[j].slot == after.last().slot {
                assert(script::slot_taken(before, after.last().slot));
            }
        }
    }
}

/// One more script is one more to stop, after all others, if a reload marks it as stopping and it
/// was not before.
pub proof fn one_more_script_is_stopped_if_it_is_dropped(
    c: Seq<ScriptConfigModel>,
    scripts: Seq<ScriptModel>,
    s: ScriptModel,
)
    ensures
        reload::stops(c, Seq::empty()).len() == 0,
        reload::stops(c, scripts.push(s)) == (if !s.stopping && reload::all_marked(
            c,
            seq![s],
        )[0].stopping {
            reload::stops(c, scripts).push(ActionModel::Stop { slot: s.slot })
        } else {
            reload::stops(c, scripts)
        }),
{
    reveal(Seq::filter);
    let p = reload::dropped_by(c);
    assert(scripts.push(s).drop_last() =~= scripts);
    if p(s) {
        assert(scripts.push(s).filter(p) =~= scripts.filter(p).push(s));
        assert(reload::stops(c, scripts.push(s)) =~= reload::stops(c, scripts).push(
            ActionModel::Stop { slot: s.slot },
        ));
    }
    assert(reload::stops(c, Seq::empty()) =~= Seq::empty());
}

/// A reload asks first to stop what is dropped, and then to start what was added.
pub proof fn a_reload_asks_for_what_it_changes(
    c: Seq<ScriptConfigModel>,
    scripts: Seq<ScriptModel>,
)
    ensures
        ({
            let asked = reload::reload_actions(c, scripts);
            let stopped = reload::stops(c, scripts);
            let a = reload::with_added(reload::all_marked(c, scripts), c);
            &&& asked.len() == stopped.len() + (a.len() - scripts.len())
            &&& asked.take(stopped.len() as int) == stopped
            &&& forall|i: int|
                scripts.len() <= i < a.len() ==> #[trigger] asked[stopped.len() + i
                    - scripts.len()] == (ActionModel::Spawn {
                    slot: a[i].slot,
                    name: a[i].name,
                    cmd: a[i].cmd,
                    generation: a[i].generation,
                })
        }),
{
    let kept = reload::all_marked(c, scripts);
    let asked = reload::reload_actions(c, scripts);
    let stopped = reload::stops(c, scripts);
    let a = reload::with_added(kept, c);
    lemma_starts_in_order(kept, c);
    assert(asked.take(stopped.len() as int) =~= stopped);
    let fresh = a.skip(kept.len() as int);
    assert forall|i: int| scripts.len() <= i < a.len() implies #[trigger] asked[stopped.len() + i
        - scripts.len()] == script::spawn_model(a[i]) by {
        assert(fresh[i - scripts.len()] == a[i]);
    }
}

} // verus!
