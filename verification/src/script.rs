//! The scripts that the program knows, and what it asks of the system for them.
use vstd::prelude::*;

use crate::display::Color;
use crate::seqs;
use crate::terminal::RunState;
use crate::text;
use crate::text::byte_count;

verus! {

/// A script and how it is doing.
pub struct ScriptState {
    pub name: String,
    pub cmd: String,
    /// Its output is shown.
    pub visible: bool,
    pub run_state: RunState,
    pub color: Color,
    /// Where the system keeps the stop flag of its supervisor. No two scripts share a slot.
    pub slot: usize,
    /// Its supervisor was told to stop for good; the script goes once it has exited.
    pub stopping: bool,
    pub generation: u64,
}

/// The model of a [`ScriptState`].
pub struct ScriptModel {
    pub name: Seq<char>,
    pub cmd: Seq<char>,
    pub visible: bool,
    pub run_state: RunState,
    pub color: Color,
    pub slot: nat,
    pub stopping: bool,
    pub generation: u64,
}

impl View for ScriptState {
    type V = ScriptModel;

    open spec fn view(&self) -> ScriptModel {
        ScriptModel {
            name: self.name@,
            cmd: self.cmd@,
            visible: self.visible,
            run_state: self.run_state,
            color: self.color,
            slot: self.slot as nat,
            stopping: self.stopping,
            generation: self.generation,
        }
    }
}

impl Clone for ScriptState {
    fn clone(&self) -> (r: Self)
        ensures
            r@ == self@,
    {
        ScriptState {
            name: self.name.clone(),
            cmd: self.cmd.clone(),
            visible: self.visible,
            run_state: self.run_state,
            color: self.color,
            slot: self.slot,
            stopping: self.stopping,
            generation: self.generation,
        }
    }
}

/// What the system is asked to do.
pub enum Action {
    /// Show this address in a browser.
    OpenUrl(String),
    /// Set the shutdown flag and interrupt every child.
    TriggerShutdown,
    /// Set the stop flag that is kept in this slot.
    Stop { slot: usize },
    /// Put a fresh stop flag into this slot and start a supervisor that watches it.
    Spawn { slot: usize, name: String, cmd: String, generation: u64 },
}

/// The model of an [`Action`].
pub enum ActionModel {
    OpenUrl(Seq<char>),
    TriggerShutdown,
    Stop { slot: nat },
    Spawn { slot: nat, name: Seq<char>, cmd: Seq<char>, generation: u64 },
}

impl View for Action {
    type V = ActionModel;

    open spec fn view(&self) -> ActionModel {
        match *self {
            Action::OpenUrl(url) => ActionModel::OpenUrl(url@),
            Action::TriggerShutdown => ActionModel::TriggerShutdown,
            Action::Stop { slot } => ActionModel::Stop { slot: slot as nat },
            Action::Spawn { slot, name, cmd, generation } => ActionModel::Spawn {
                slot: slot as nat,
                name: name@,
                cmd: cmd@,
                generation,
            },
        }
    }
}

/// Scripts of this name.
pub open spec fn named(name: Seq<char>) -> spec_fn(ScriptModel) -> bool {
    |s: ScriptModel| s.name == name
}

/// Scripts of this name that were not told to stop.
pub open spec fn live_named(name: Seq<char>) -> spec_fn(ScriptModel) -> bool {
    |s: ScriptModel| s.name == name && !s.stopping
}

/// Scripts of this name whose supervisor is of this generation.
pub open spec fn named_in_generation(name: Seq<char>, generation: u64) -> spec_fn(
    ScriptModel,
) -> bool {
    |s: ScriptModel| s.name == name && s.generation == generation
}

/// The request to start a supervisor for `s`.
pub open spec fn spawn_model(s: ScriptModel) -> ActionModel {
    ActionModel::Spawn { slot: s.slot, name: s.name, cmd: s.cmd, generation: s.generation }
}

/// Some script has its stop flag in slot `k`.
pub open spec fn slot_taken(scripts: Seq<ScriptModel>, k: nat) -> bool {
    exists|i: int| 0 <= i < scripts.len() && #[trigger] scripts[i].slot == k
}

/// `k` is the least slot that no script has.
pub open spec fn is_free_slot(scripts: Seq<ScriptModel>, k: nat) -> bool {
    &&& !slot_taken(scripts, k)
    &&& forall|j: nat| j < k ==> #[trigger] slot_taken(scripts, j)
}

/// The least slot that no script has.
pub open spec fn free_slot_model(scripts: Seq<ScriptModel>) -> nat {
    choose|k: nat| is_free_slot(scripts, k)
}

/// The longest name, in bytes.
pub open spec fn widest_name(scripts: Seq<ScriptModel>) -> nat
    decreases scripts.len(),
{
    if scripts.len() == 0 {
        0
    } else {
        let rest = widest_name(scripts.drop_last());
        let last = text::byte_len(scripts.last().name);
        if rest >= last {
            rest
        } else {
            last
        }
    }
}

/// The width of the column of names: that of the longest, or one where there is none.
pub open spec fn name_column(scripts: Seq<ScriptModel>) -> nat {
    if scripts.len() == 0 {
        1
    } else {
        widest_name(scripts)
    }
}

/// The request to start a supervisor for `script`.
pub fn spawn_supervisor(script: &ScriptState) -> (r: Action)
    ensures
        r@ == spawn_model(script@),
{
    Action::Spawn {
        slot: script.slot,
        name: script.name.clone(),
        cmd: script.cmd.clone(),
        generation: script.generation,
    }
}

/// The position of the first script of this name.
pub fn find_named(scripts: &Vec<ScriptState>, name: &String) -> (r: Option<usize>)
    ensures
        seqs::first_where(seqs::views(scripts@), named(name@)) == match r {
            Some(k) => Some(k as int),
            None => None::<int>,
        },
        r matches Some(k) ==> k < scripts.len() && scripts[k as int].name@ == name@,
{
    let ghost all = seqs::views(scripts@);
    for i in 0..scripts.len()
        invariant
            all == seqs::views(scripts@),
            seqs::first_where(all, named(name@)) == seqs::first_from(all, named(name@), i as int),
    {
        if scripts[i].name == *name {
            assert(named(name@)(all[i as int]));
            return Some(i);
        }
        assert(!named(name@)(all[i as int]));
    }
    None
}

/// The position of the first script of this name that was not told to stop.
pub fn find_live(scripts: &Vec<ScriptState>, name: &String) -> (r: Option<usize>)
    ensures
        seqs::first_where(seqs::views(scripts@), live_named(name@)) == match r {
            Some(k) => Some(k as int),
            None => None::<int>,
        },
        r matches Some(k) ==> k < scripts.len(),
{
    let ghost all = seqs::views(scripts@);
    for i in 0..scripts.len()
        invariant
            all == seqs::views(scripts@),
            seqs::first_where(all, live_named(name@)) == seqs::first_from(
                all,
                live_named(name@),
                i as int,
            ),
    {
        if scripts[i].name == *name && !scripts[i].stopping {
            assert(live_named(name@)(all[i as int]));
            return Some(i);
        }
        assert(!live_named(name@)(all[i as int]));
    }
    None
}

/// The position of the first script of this name and generation.
pub fn find_generation(scripts: &Vec<ScriptState>, name: &String, generation: u64) -> (r: Option<
    usize,
>)
    ensures
        seqs::first_where(seqs::views(scripts@), named_in_generation(name@, generation))
            == match r {
            Some(k) => Some(k as int),
            None => None::<int>,
        },
        r matches Some(k) ==> k < scripts.len(),
{
    let ghost all = seqs::views(scripts@);
    let ghost p = named_in_generation(name@, generation);
    for i in 0..scripts.len()
        invariant
            all == seqs::views(scripts@),
            p == named_in_generation(name@, generation),
            seqs::first_where(all, p) == seqs::first_from(all, p, i as int),
    {
        if scripts[i].name == *name && scripts[i].generation == generation {
            assert(p(all[i as int]));
            return Some(i);
        }
        assert(!p(all[i as int]));
    }
    None
}

proof fn lemma_slots_run_out(scripts: Seq<ScriptModel>)
    ensures
        exists|k: nat| k <= scripts.len() && !#[trigger] slot_taken(scripts, k),
{
    if forall|k: nat| k <= scripts.len() ==> #[trigger] slot_taken(scripts, k) {
        let slots = scripts.map_values(|s: ScriptModel| s.slot as int);
        let past: int = scripts.len() as int + 1;
        let wanted = vstd::set_lib::set_int_range(0, past);
        vstd::set_lib::lemma_int_range(0, past);
        slots.lemma_cardinality_of_set();
        assert(wanted.subset_of(slots.to_set())) by {
            assert forall|k: int| wanted.contains(k) implies slots.to_set().contains(k) by {
                assert(slot_taken(scripts, k as nat));
                let i = choose|i: int| 0 <= i < scripts.len() && #[trigger] scripts[i].slot == k;
                assert(slots[i] == k);
            }
        }
        vstd::set_lib::lemma_len_subset(wanted, slots.to_set());
        assert(false);
    }
}

/// The least slot that no script has.
pub fn free_slot(scripts: &Vec<ScriptState>) -> (r: usize)
    ensures
        is_free_slot(seqs::views(scripts@), r as nat),
        r == free_slot_model(seqs::views(scripts@)),
{
    let ghost all = seqs::views(scripts@);
    let mut k: usize = 0;
    loop
        invariant
            all == seqs::views(scripts@),
            k <= scripts.len(),
            forall|j: nat| j < k ==> #[trigger] slot_taken(all, j),
        decreases scripts.len() - k,
    {
        let mut taken = false;
        for i in 0..scripts.len()
            invariant
                all == seqs::views(scripts@),
                taken == exists|j: int| 0 <= j < i && #[trigger] all[j].slot == k,
        {
            assert(all[i as int].slot == scripts[i as int].slot);
            if scripts[i].slot == k {
                taken = true;
            }
        }
        assert(taken == slot_taken(all, k as nat));
        if !taken {
            proof {
                lemma_free_slot_unique(all, k as nat);
            }
            return k;
        }
        proof {
            lemma_slots_run_out(all);
        }
        k = k + 1;
    }
}

/// There is only one least free slot.
pub proof fn lemma_free_slot_unique(scripts: Seq<ScriptModel>, k: nat)
    requires
        is_free_slot(scripts, k),
    ensures
        free_slot_model(scripts) == k,
{
    let other = free_slot_model(scripts);
    assert(is_free_slot(scripts, other));
    if other < k {
        assert(slot_taken(scripts, other));
    }
    if k < other {
        assert(slot_taken(scripts, k));
    }
}

/// There is a free slot.
pub proof fn lemma_free_slot_is_free(scripts: Seq<ScriptModel>)
    ensures
        is_free_slot(scripts, free_slot_model(scripts)),
{
    lemma_slots_run_out(scripts);
    let k = choose|k: nat| k <= scripts.len() && !#[trigger] slot_taken(scripts, k);
    lemma_least_untaken(scripts, k);
}

proof fn lemma_least_untaken(scripts: Seq<ScriptModel>, k: nat)
    requires
        !slot_taken(scripts, k),
    ensures
        exists|j: nat| is_free_slot(scripts, j),
    decreases k,
{
    if forall|j: nat| j < k ==> #[trigger] slot_taken(scripts, j) {
        assert(is_free_slot(scripts, k));
    } else {
        let j = choose|j: nat| j < k && !#[trigger] slot_taken(scripts, j);
        lemma_least_untaken(scripts, j);
    }
}

/// The width that the column of names needs.
pub fn name_width(scripts: &Vec<ScriptState>) -> (r: usize)
    ensures
        r == name_column(seqs::views(scripts@)),
{
    let ghost all = seqs::views(scripts@);
    if scripts.is_empty() {
        return 1;
    }
    let mut widest: usize = 0;
    for i in 0..scripts.len()
        invariant
            all == seqs::views(scripts@),
            widest == widest_name(all.take(i as int)),
    {
        let width: usize = byte_count(scripts[i].name.as_str());
        assert(all.take(i + 1).drop_last() =~= all.take(i as int));
        if width > widest {
            widest = width;
        }
    }
    assert(all.take(scripts.len() as int) =~= all);
    widest
}

} // verus!
