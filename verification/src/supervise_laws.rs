//! What holds of every supervisor.
use vstd::prelude::*;

use crate::process::OutputModel;
use crate::supervise;
use crate::supervise::{
    EffectModel, Next, Phase, ReportModel, SupervisorModel,
};

verus! {

/// The child that runs.
pub open spec fn child(phase: Phase) -> Option<u32> {
    match phase {
        Phase::Started(pid) | Phase::Interrupted(pid) | Phase::Running(pid) => Some(pid),
        _ => None,
    }
}

/// The move that belongs to a phase.
pub open spec fn move_of(phase: Phase) -> Next {
    match phase {
        Phase::Ready | Phase::Failed | Phase::Started(_) | Phase::Ended => Next::ReadFlags,
        Phase::Launching => Next::Launch,
        Phase::Interrupted(pid) => Next::InterruptChild(pid),
        Phase::Running(pid) => Next::AwaitChild(pid),
        Phase::Waiting => Next::Pause,
        Phase::Done => Next::Return,
    }
}

/// The next move of a supervisor is the one that belongs to its phase, so that what it brings is
/// what the supervisor waits for.
pub proof fn the_next_move_fits_the_phase(s: SupervisorModel, report: ReportModel)
    requires
        supervise::expects(s.phase, report),
    ensures
        supervise::answer(s, report).next == move_of(supervise::answer(s, report).phase),
{
}

/// The line is about the script and, where it says so, of the generation.
pub open spec fn is_about(line: OutputModel, name: Seq<char>, generation: u64) -> bool {
    match line {
        OutputModel::Stdout { script_name, .. } => script_name == name,
        OutputModel::Stderr { script_name, .. } => script_name == name,
        OutputModel::Exited { script_name, generation: g, .. } => script_name == name && g
            == generation,
        OutputModel::Restarting { script_name, generation: g } => script_name == name && g
            == generation,
        OutputModel::Restarted { script_name, generation: g } => script_name == name && g
            == generation,
    }
}

/// A supervisor speaks only of its own script and for its own generation.
pub proof fn reports_are_its_own(s: SupervisorModel, report: ReportModel, i: int)
    requires
        0 <= i < supervise::answer(s, report).effects.len(),
    ensures
        supervise::answer(s, report).effects[i] matches EffectModel::Send(line) ==> is_about(
            line,
            s.name,
            s.generation,
        ),
{
}

/// A child is in the list exactly as long as it runs: it is entered when it starts, taken off
/// when it has exited, and nothing else is entered or taken off.
pub proof fn children_are_listed_while_they_run(s: SupervisorModel, report: ReportModel, pid: u32)
    requires
        supervise::expects(s.phase, report),
    ensures
        ({
            let answer = supervise::answer(s, report);
            let before = child(s.phase);
            let after = child(answer.phase);
            &&& answer.effects.contains(EffectModel::Register(pid)) <==> before is None && after
                == Some(pid)
            &&& answer.effects.contains(EffectModel::Unregister(pid)) <==> before == Some(pid)
                && after is None
            &&& before is Some && after is Some ==> before == after
        }),
{
    let answer = supervise::answer(s, report);
    if answer.effects.len() > 0 {
        assert(answer.effects[0] == answer.effects.first());
        assert(answer.effects.contains(answer.effects[0]));
    }
}

/// A supervisor that sees its stop flag ends, or first interrupts the child that it started.
pub proof fn a_stop_is_obeyed(s: SupervisorModel, shutdown: bool)
    requires
        supervise::expects(s.phase, ReportModel::Flags { shutdown, stop: true }),
    ensures
        supervise::answer(s, ReportModel::Flags { shutdown, stop: true }).next == match child(
            s.phase,
        ) {
            Some(pid) => Next::InterruptChild(pid),
            None => Next::Return,
        },
{
}

/// A supervisor whose child runs when it is told to stop takes the child off the list once it has
/// exited, reports that, and ends.
pub proof fn a_stopped_child_is_the_last(s: SupervisorModel, code: Option<i32>, shutdown: bool)
    requires
        s.phase is Running,
    ensures
        ({
            let exit = ReportModel::ChildExited(code);
            let (phase, effects) = run(s, seq![exit, ReportModel::Flags { shutdown, stop: true }]);
            &&& phase is Done
            &&& effects == seq![
                EffectModel::Unregister(child(s.phase)->0),
                supervise::exited_line(s, code),
            ]
        }),
{
    let exit = ReportModel::ChildExited(code);
    let both = seq![exit, ReportModel::Flags { shutdown, stop: true }];
    assert(both.drop_last() =~= seq![exit]);
    assert(seq![exit].drop_last() =~= Seq::empty());
    reveal_with_fuel(run, 3);
    assert(run(s, both).1 =~= seq![
        EffectModel::Unregister(child(s.phase)->0),
        supervise::exited_line(s, code),
    ]);
}

/// A supervisor that is about to start its command, or to wait before it does, and sees that the
/// program shuts down, ends; only after a failed start it waits once more.
pub proof fn a_shutdown_is_obeyed(s: SupervisorModel, stop: bool)
    requires
        s.phase is Ready || s.phase is Ended || s.phase is Waiting,
    ensures
        supervise::answer(s, ReportModel::Flags { shutdown: true, stop }) == supervise::returned(),
{
}

/// The phase that a series of reports leads to, and the effects on the way.
pub open spec fn run(s: SupervisorModel, reports: Seq<ReportModel>) -> (Phase, Seq<EffectModel>)
    decreases reports.len(),
{
    if reports.len() == 0 {
        (s.phase, Seq::empty())
    } else {
        let (phase, effects) = run(s, reports.drop_last());
        let answer = supervise::answer(SupervisorModel { phase, ..s }, reports.last());
        (answer.phase, effects + answer.effects)
    }
}

/// Every report is one that the supervisor waits for.
pub open spec fn all_expected(s: SupervisorModel, reports: Seq<ReportModel>) -> bool {
    forall|i: int|
        0 <= i < reports.len() ==> supervise::expects(
            run(s, reports.take(i)).0,
            #[trigger] reports[i],
        )
}

proof fn lemma_expected_before(s: SupervisorModel, reports: Seq<ReportModel>)
    requires
        all_expected(s, reports),
        reports.len() > 0,
    ensures
        all_expected(s, reports.drop_last()),
        supervise::expects(run(s, reports.drop_last()).0, reports.last()),
{
    let rest = reports.drop_last();
    assert forall|i: int| 0 <= i < rest.len() implies supervise::expects(
        run(s, rest.take(i)).0,
        #[trigger] rest[i],
    ) by {
        assert(rest.take(i) =~= reports.take(i));
        assert(rest[i] == reports[i]);
    }
    assert(reports.take(reports.len() - 1) =~= rest);
    assert(supervise::expects(run(s, rest).0, reports[reports.len() - 1]));
}

/// Reports on a start of the command, whether it worked or not.
pub open spec fn on_a_start() -> spec_fn(ReportModel) -> bool {
    |r: ReportModel| r is Launched || r is LaunchFailed
}

/// Effects that tell of an exit.
pub open spec fn of_an_exit() -> spec_fn(EffectModel) -> bool {
    |e: EffectModel| e matches EffectModel::Send(OutputModel::Exited { .. })
}

/// Effects that tell of the delay before the next start.
pub open spec fn of_a_delay() -> spec_fn(EffectModel) -> bool {
    |e: EffectModel| e matches EffectModel::Send(OutputModel::Restarting { .. })
}

/// Effects that tell of the next start.
pub open spec fn of_a_restart() -> spec_fn(EffectModel) -> bool {
    |e: EffectModel| e matches EffectModel::Send(OutputModel::Restarted { .. })
}

/// The number of items that satisfy `p`.
pub open spec fn count<T>(s: Seq<T>, p: spec_fn(T) -> bool) -> nat {
    s.filter(p).len()
}

proof fn lemma_filter_more<T>(a: Seq<T>, b: Seq<T>, p: spec_fn(T) -> bool)
    ensures
        (a + b).filter(p) == a.filter(p) + b.filter(p),
{
    crate::seqs::lemma_filter_parts(a + b, p, a.len() as int);
    assert((a + b).take(a.len() as int) =~= a);
    assert((a + b).skip(a.len() as int) =~= b);
}

proof fn lemma_count_more<T>(a: Seq<T>, b: Seq<T>, p: spec_fn(T) -> bool)
    ensures
        count(a + b, p) == count(a, p) + count(b, p),
{
    lemma_filter_more(a, b, p);
}

proof fn lemma_count_few<T>(s: Seq<T>, p: spec_fn(T) -> bool)
    ensures
        s.len() == 0 ==> count(s, p) == 0,
        s.len() == 1 ==> count(s, p) == (if p(s[0]) {
            1nat
        } else {
            0
        }),
        s.len() == 2 ==> count(s, p) == (if p(s[0]) {
            1nat
        } else {
            0
        }) + (if p(s[1]) {
            1nat
        } else {
            0
        }),
{
    reveal(Seq::filter);
    reveal_with_fuel(Seq::filter, 3);
    if s.len() == 2 {
        assert(s.drop_last().drop_last() =~= Seq::empty());
    }
    if s.len() == 1 {
        assert(s.drop_last() =~= Seq::empty());
    }
}

/// Every start is followed by one report of an exit, once it is over; every exit by at most one
/// delay, and every delay by at most one restart.
pub proof fn every_start_has_one_exit(s: SupervisorModel, reports: Seq<ReportModel>)
    requires
        s.phase is Ready,
        all_expected(s, reports),
    ensures
        ({
            let (phase, effects) = run(s, reports);
            let starts = count(reports, on_a_start());
            let exits = count(effects, of_an_exit());
            let waits = count(effects, of_a_delay());
            let restarts = count(effects, of_a_restart());
            &&& exits + (if child(phase) is Some {
                1nat
            } else {
                0
            }) == starts
            &&& waits <= exits
            &&& restarts <= waits
            &&& waits <= restarts + 1
        }),
{
    lemma_counts(s, reports);
}

/// What the counts of a run add up to in each phase.
spec fn adds_up(
    phase: Phase,
    starts: nat,
    exits: nat,
    waits: nat,
    restarts: nat,
) -> bool {
    match phase {
        Phase::Ready | Phase::Launching => exits == starts && waits == exits && restarts == waits,
        Phase::Started(_) | Phase::Interrupted(_) | Phase::Running(_) => exits + 1 == starts
            && waits == exits && restarts == waits,
        Phase::Failed | Phase::Ended => exits == starts && waits + 1 == exits && restarts == waits,
        Phase::Waiting => exits == starts && waits == exits && restarts + 1 == waits,
        Phase::Done => exits == starts && waits <= exits && restarts <= waits && waits <= restarts
            + 1,
    }
}

/// What one answer adds to the counts.
proof fn lemma_one_answer(
    s: SupervisorModel,
    report: ReportModel,
    starts: nat,
    exits: nat,
    waits: nat,
    restarts: nat,
)
    requires
        supervise::expects(s.phase, report),
        adds_up(s.phase, starts, exits, waits, restarts),
    ensures
        adds_up(
            supervise::answer(s, report).phase,
            starts + count(seq![report], on_a_start()),
            exits + count(supervise::answer(s, report).effects, of_an_exit()),
            waits + count(supervise::answer(s, report).effects, of_a_delay()),
            restarts + count(supervise::answer(s, report).effects, of_a_restart()),
        ),
{
    let effects = supervise::answer(s, report).effects;
    lemma_count_few(seq![report], on_a_start());
    lemma_count_few(effects, of_an_exit());
    lemma_count_few(effects, of_a_delay());
    lemma_count_few(effects, of_a_restart());
}

proof fn lemma_counts(s: SupervisorModel, reports: Seq<ReportModel>)
    requires
        s.phase is Ready,
        all_expected(s, reports),
    ensures
        adds_up(
            run(s, reports).0,
            count(reports, on_a_start()),
            count(run(s, reports).1, of_an_exit()),
            count(run(s, reports).1, of_a_delay()),
            count(run(s, reports).1, of_a_restart()),
        ),
    decreases reports.len(),
{
    if reports.len() == 0 {
        lemma_count_few(reports, on_a_start());
        lemma_count_few(run(s, reports).1, of_an_exit());
        lemma_count_few(run(s, reports).1, of_a_delay());
        lemma_count_few(run(s, reports).1, of_a_restart());
    } else {
        let rest = reports.drop_last();
        let last = reports.last();
        lemma_expected_before(s, reports);
        lemma_counts(s, rest);
        let (phase, effects) = run(s, rest);
        let now = SupervisorModel { phase, ..s };
        lemma_one_answer(
            now,
            last,
            count(rest, on_a_start()),
            count(effects, of_an_exit()),
            count(effects, of_a_delay()),
            count(effects, of_a_restart()),
        );
        let more = supervise::answer(now, last).effects;
        assert(reports =~= rest + seq![last]);
        lemma_count_more(rest, seq![last], on_a_start());
        lemma_count_more(effects, more, of_an_exit());
        lemma_count_more(effects, more, of_a_delay());
        lemma_count_more(effects, more, of_a_restart());
    }
}

/// Effects that tell of an exit, of the delay before the next start, or of that start.
pub open spec fn of_a_turn() -> spec_fn(EffectModel) -> bool {
    |e: EffectModel| of_an_exit()(e) || of_a_delay()(e) || of_a_restart()(e)
}

/// The effect is the one whose turn it is after `i` others: first comes an exit, then a delay,
/// then a restart, and so on.
pub open spec fn is_in_turn(e: EffectModel, i: int) -> bool {
    if i % 3 == 0 {
        of_an_exit()(e)
    } else if i % 3 == 1 {
        of_a_delay()(e)
    } else {
        of_a_restart()(e)
    }
}

/// Each effect comes in its turn.
pub open spec fn all_in_turn(told: Seq<EffectModel>) -> bool {
    forall|i: int| 0 <= i < told.len() ==> is_in_turn(#[trigger] told[i], i)
}

/// Whose turn it is in a phase, after `n` effects; the end can come in any turn.
pub open spec fn turn_fits(phase: Phase, n: int) -> bool {
    match phase {
        Phase::Ready | Phase::Launching => n % 3 == 0,
        Phase::Started(_) | Phase::Interrupted(_) | Phase::Running(_) => n % 3 == 0,
        Phase::Failed | Phase::Ended => n % 3 == 1,
        Phase::Waiting => n % 3 == 2,
        Phase::Done => true,
    }
}

/// The reports of a run go exit, delay, restart, over and over in that order, and none comes out
/// of turn: while the command is started or runs, the next is an exit; once that was reported, a
/// delay; and during the delay, a restart.
pub proof fn reports_go_in_turn(s: SupervisorModel, reports: Seq<ReportModel>)
    requires
        s.phase is Ready,
        all_expected(s, reports),
    ensures
        all_in_turn(run(s, reports).1.filter(of_a_turn())),
        turn_fits(run(s, reports).0, run(s, reports).1.filter(of_a_turn()).len() as int),
    decreases reports.len(),
{
    if reports.len() == 0 {
        reveal(Seq::filter);
    } else {
        let rest = reports.drop_last();
        let last = reports.last();
        lemma_expected_before(s, reports);
        reports_go_in_turn(s, rest);
        let (phase, effects) = run(s, rest);
        let now = SupervisorModel { phase, ..s };
        let more = supervise::answer(now, last).effects;
        lemma_turn_taken(now, last, effects.filter(of_a_turn()).len() as int);
        lemma_filter_more(effects, more, of_a_turn());
        lemma_one_more_in_turn(effects.filter(of_a_turn()), more.filter(of_a_turn()));
    }
}

proof fn lemma_one_more_in_turn(told: Seq<EffectModel>, next: Seq<EffectModel>)
    requires
        all_in_turn(told),
        next.len() <= 1,
        next.len() == 1 ==> is_in_turn(next[0], told.len() as int),
    ensures
        all_in_turn(told + next),
{
    assert forall|i: int| 0 <= i < (told + next).len() implies is_in_turn(
        #[trigger] (told + next)[i],
        i,
    ) by {
        if i < told.len() {
            assert((told + next)[i] == told[i]);
        } else {
            assert((told + next)[i] == next[0]);
        }
    }
}

/// One answer reports at most once, and that in its turn.
proof fn lemma_turn_taken(s: SupervisorModel, report: ReportModel, n: int)
    requires
        supervise::expects(s.phase, report),
        0 <= n,
        turn_fits(s.phase, n),
    ensures
        ({
            let answer = supervise::answer(s, report);
            let next = answer.effects.filter(of_a_turn());
            &&& next.len() <= 1
            &&& next.len() == 1 ==> is_in_turn(next[0], n)
            &&& turn_fits(answer.phase, n + next.len())
        }),
{
    let effects = supervise::answer(s, report).effects;
    reveal(Seq::filter);
    reveal_with_fuel(Seq::filter, 3);
    if effects.len() == 2 {
        assert(effects.drop_last().drop_last() =~= Seq::empty());
    }
    if effects.len() == 1 {
        assert(effects.drop_last() =~= Seq::empty());
    }
}

/// A command that ended is started again, after the delay, unless a flag is set.
pub proof fn a_command_that_ended_starts_again(s: SupervisorModel)
    requires
        s.phase is Ended || s.phase is Failed,
    ensures
        ({
            let clear = ReportModel::Flags { shutdown: false, stop: false };
            let (phase, effects) = run(s, seq![clear, clear, clear]);
            &&& phase is Launching
            &&& effects == seq![supervise::restarting_line(s), supervise::restarted_line(s)]
        }),
{
    let clear = ReportModel::Flags { shutdown: false, stop: false };
    let three = seq![clear, clear, clear];
    let two = seq![clear, clear];
    let one = seq![clear];
    assert(three.drop_last() =~= two);
    assert(two.drop_last() =~= one);
    assert(one.drop_last() =~= Seq::empty());
    reveal_with_fuel(run, 4);
    assert(run(s, three).1 =~= seq![
        supervise::restarting_line(s),
        supervise::restarted_line(s),
    ]);
}

// ---------------------------------------------------------------------------
// The life of a supervisor
// ---------------------------------------------------------------------------

/// The flags, as they are read.
pub open spec fn flags(shutdown: bool, stop: bool) -> ReportModel {
    ReportModel::Flags { shutdown, stop }
}

/// Neither flag is set.
pub open spec fn clear() -> ReportModel {
    flags(false, false)
}

/// A report on the script of `s`, for the generation of `s`.
pub open spec fn exit_report(s: SupervisorModel, code: Option<i32>) -> EffectModel {
    EffectModel::Send(
        OutputModel::Exited { script_name: s.name, code, generation: s.generation },
    )
}

/// The report on a delay.
pub open spec fn delay_report(s: SupervisorModel) -> EffectModel {
    EffectModel::Send(OutputModel::Restarting { script_name: s.name, generation: s.generation })
}

/// The report on the start after a delay.
pub open spec fn restart_report(s: SupervisorModel) -> EffectModel {
    EffectModel::Send(OutputModel::Restarted { script_name: s.name, generation: s.generation })
}

/// The report that the command could not be started.
pub open spec fn failure_report(s: SupervisorModel, why: Seq<char>) -> EffectModel {
    EffectModel::Send(
        OutputModel::Stderr { script_name: s.name, line: "failed to spawn: "@ + why },
    )
}

proof fn lemma_run_more(s: SupervisorModel, reports: Seq<ReportModel>, more: ReportModel)
    ensures
        run(s, reports.push(more)) == ({
            let (phase, effects) = run(s, reports);
            let answer = supervise::answer(SupervisorModel { phase, ..s }, more);
            (answer.phase, effects + answer.effects)
        }),
{
    assert(reports.push(more).drop_last() =~= reports);
}

/// While no flag is set, a child that runs is entered, waited for, taken off and reported with the
/// code that it exited with; then the delay and the restart are reported, and the next start is
/// due.
pub proof fn a_child_that_exits_is_started_again(
    s: SupervisorModel,
    pid: u32,
    code: Option<i32>,
)
    requires
        s.phase is Ready,
    ensures
        ({
            let (phase, effects) = run(
                s,
                seq![
                    clear(),
                    ReportModel::Launched(pid),
                    clear(),
                    ReportModel::ChildExited(code),
                    clear(),
                    clear(),
                ],
            );
            &&& phase is Ready
            &&& effects == seq![
                EffectModel::Register(pid),
                EffectModel::Unregister(pid),
                exit_report(s, code),
                delay_report(s),
                restart_report(s),
            ]
        }),
{
    let none = Seq::<ReportModel>::empty();
    let a = none.push(clear());
    let b = a.push(ReportModel::Launched(pid));
    let c = b.push(clear());
    let d = c.push(ReportModel::ChildExited(code));
    let e = d.push(clear());
    let f = e.push(clear());
    lemma_run_more(s, none, clear());
    lemma_run_more(s, a, ReportModel::Launched(pid));
    lemma_run_more(s, b, clear());
    lemma_run_more(s, c, ReportModel::ChildExited(code));
    lemma_run_more(s, d, clear());
    lemma_run_more(s, e, clear());
    assert(run(s, none) == (s.phase, Seq::<EffectModel>::empty()));
    assert(f =~= seq![
        clear(),
        ReportModel::Launched(pid),
        clear(),
        ReportModel::ChildExited(code),
        clear(),
        clear(),
    ]);
    assert(run(s, f).1 =~= seq![
        EffectModel::Register(pid),
        EffectModel::Unregister(pid),
        exit_report(s, code),
        delay_report(s),
        restart_report(s),
    ]);
}

/// A start that fails is reported with its reason, and as an exit without a code; then the delay
/// and the restart are reported, and the next start is due. A shutdown is not looked at before
/// the delay.
pub proof fn a_start_that_fails_is_tried_again(
    s: SupervisorModel,
    why: Seq<char>,
    shutdown: bool,
)
    requires
        s.phase is Ready,
    ensures
        ({
            let (phase, effects) = run(
                s,
                seq![clear(), ReportModel::LaunchFailed(why), flags(shutdown, false), clear()],
            );
            &&& phase is Ready
            &&& effects == seq![
                failure_report(s, why),
                exit_report(s, None),
                delay_report(s),
                restart_report(s),
            ]
        }),
{
    let none = Seq::<ReportModel>::empty();
    let a = none.push(clear());
    let b = a.push(ReportModel::LaunchFailed(why));
    let c = b.push(flags(shutdown, false));
    let d = c.push(clear());
    lemma_run_more(s, none, clear());
    lemma_run_more(s, a, ReportModel::LaunchFailed(why));
    lemma_run_more(s, b, flags(shutdown, false));
    lemma_run_more(s, c, clear());
    assert(run(s, none) == (s.phase, Seq::<EffectModel>::empty()));
    assert(d =~= seq![
        clear(),
        ReportModel::LaunchFailed(why),
        flags(shutdown, false),
        clear(),
    ]);
    assert(run(s, d).1 =~= seq![
        failure_report(s, why),
        exit_report(s, None),
        delay_report(s),
        restart_report(s),
    ]);
}

/// A child whose supervisor is told to stop during the start is interrupted, taken off, and
/// reported as an exit without a code, whatever the code was; then the supervisor ends.
pub proof fn a_stop_during_the_start_ends_the_child(
    s: SupervisorModel,
    pid: u32,
    shutdown: bool,
    code: Option<i32>,
)
    requires
        s.phase is Ready,
    ensures
        ({
            let reports = seq![
                clear(),
                ReportModel::Launched(pid),
                flags(shutdown, true),
            ];
            &&& run(s, reports).0 == Phase::Interrupted(pid)
            &&& run(s, reports.push(ReportModel::ChildExited(code))) == (
                Phase::Done,
                seq![
                    EffectModel::Register(pid),
                    EffectModel::Unregister(pid),
                    exit_report(s, None),
                ],
            )
        }),
{
    let none = Seq::<ReportModel>::empty();
    let a = none.push(clear());
    let b = a.push(ReportModel::Launched(pid));
    let c = b.push(flags(shutdown, true));
    lemma_run_more(s, none, clear());
    lemma_run_more(s, a, ReportModel::Launched(pid));
    lemma_run_more(s, b, flags(shutdown, true));
    lemma_run_more(s, c, ReportModel::ChildExited(code));
    assert(run(s, none) == (s.phase, Seq::<EffectModel>::empty()));
    assert(c =~= seq![clear(), ReportModel::Launched(pid), flags(shutdown, true)]);
    assert(run(s, c.push(ReportModel::ChildExited(code))).1 =~= seq![
        EffectModel::Register(pid),
        EffectModel::Unregister(pid),
        exit_report(s, None),
    ]);
}

/// A shutdown alone does not interrupt a child that was just started: the supervisor waits for it.
pub proof fn a_shutdown_leaves_the_child_to_others(s: SupervisorModel, shutdown: bool)
    requires
        s.phase is Started,
    ensures
        supervise::answer(s, flags(shutdown, false)).effects.len() == 0,
        supervise::answer(s, flags(shutdown, false)).next == Next::AwaitChild(child(s.phase)->0),
{
}

/// Between children a flag that is set ends the supervisor, without a further report.
pub proof fn a_flag_ends_the_supervisor(s: SupervisorModel, shutdown: bool, stop: bool)
    requires
        s.phase is Ready || s.phase is Ended || s.phase is Waiting || s.phase is Failed,
        stop || (shutdown && !(s.phase is Failed)),
    ensures
        supervise::answer(s, flags(shutdown, stop)).next is Return,
        supervise::answer(s, flags(shutdown, stop)).phase is Done,
        supervise::answer(s, flags(shutdown, stop)).effects.len() == 0,
{
}

/// The delay before a restart is five seconds, cut short within a tenth of one, and the watcher of
/// a child looks every twentieth of one.
pub proof fn the_delay_is_five_seconds()
    ensures
        supervise::RESTART_DELAY_MS == 5_000,
        supervise::naps(0, supervise::RESTART_DELAY_MS as int) == 50,
        supervise::NAP_MS == 100,
        supervise::WATCH_NAP_MS == 50,
{
    supervise::wait_is_long_enough(0, supervise::RESTART_DELAY_MS as int);
    let n = supervise::naps(0, supervise::RESTART_DELAY_MS as int);
    assert(100 * n >= 5_000 && 100 * n < 5_100);
}

/// A wait ends at once when a flag is set, and when its time is over; until then it goes on by a
/// tenth of a second.
pub proof fn a_wait_ends_with_a_flag(
    elapsed_ms: u64,
    duration_ms: u64,
    shutdown: bool,
    stop: bool,
)
    ensures
        supervise::nap_model(elapsed_ms, duration_ms, true, stop) is None,
        supervise::nap_model(elapsed_ms, duration_ms, shutdown, true) is None,
        elapsed_ms >= duration_ms ==> supervise::nap_model(
            elapsed_ms,
            duration_ms,
            shutdown,
            stop,
        ) is None,
        elapsed_ms < duration_ms ==> supervise::nap_model(elapsed_ms, duration_ms, false, false)
            == Some(100u64),
{
}

/// The watcher of a child passes a stop on to it, whatever else there is; it ends without that
/// when the program shuts down or the child is gone, and goes on as long as there is nothing.
pub proof fn the_watcher_passes_on_a_stop(shutdown: bool, exited: bool)
    ensures
        supervise::watch_model(shutdown, true, exited) is Interrupt,
        supervise::watch_model(true, false, exited) is Finish,
        supervise::watch_model(shutdown, false, true) is Finish,
        supervise::watch_model(false, false, false) is Nap,
{
}

} // verus!
