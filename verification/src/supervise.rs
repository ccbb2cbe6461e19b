//! Supervisors: one runs the command of a script, again and again, until it is told to stop.
//!
//! A supervisor is a state machine. It is told what happened and answers with what to report,
//! which child to enter in the list of children or take off it, and what to do next. Whoever
//! drives it runs the commands and reads the flags.
use vstd::prelude::*;

use crate::process::{OutputLine, OutputModel};
use crate::seqs;
use crate::text::joined;

verus! {

/// How long a supervisor waits before it starts its command again.
pub const RESTART_DELAY_MS: u64 = 5000;

/// How long it sleeps between two looks at the flags while it waits.
pub const NAP_MS: u64 = 100;

/// How long the watcher of a child sleeps between two looks at the flags.
pub const WATCH_NAP_MS: u64 = 50;

/// Where a supervisor stands.
#[derive(Clone, Copy, Debug, PartialEq, Eq)]
pub enum Phase {
    /// About to start the command.
    Ready,
    /// The command is being started.
    Launching,
    /// The command could not be started, and that was reported.
    Failed,
    /// The child runs; nobody has looked at the flags since.
    Started(u32),
    /// The child was told to stop right after its start.
    Interrupted(u32),
    /// The child runs.
    Running(u32),
    /// The child exited, and that was reported.
    Ended,
    /// The delay before the next start.
    Waiting,
    /// The supervisor returned.
    Done,
}

/// What a supervisor is told.
pub enum Report {
    /// The shutdown flag and its own stop flag, as they are now.
    Flags { shutdown: bool, stop: bool },
    /// The command runs as this process.
    Launched(u32),
    /// The command could not be started, for this reason.
    LaunchFailed(String),
    /// The child exited, with this code, or without one.
    ChildExited(Option<i32>),
}

/// What a supervisor does besides its next move.
pub enum Effect {
    /// Tell the main loop.
    Send(OutputLine),
    /// Enter the child in the list of children.
    Register(u32),
    /// Take the child off the list of children.
    Unregister(u32),
}

/// The next move of a supervisor.
#[derive(Clone, Copy, Debug, PartialEq, Eq)]
pub enum Next {
    /// Look at the flags and report them.
    ReadFlags,
    /// Start the command and report how that went.
    Launch,
    /// Interrupt the child, wait for its exit and report that.
    InterruptChild(u32),
    /// Pass on the child's output, watch the flags, wait for its exit and report that.
    AwaitChild(u32),
    /// Wait for the delay, or until a flag is set, then report the flags.
    Pause,
    /// End.
    Return,
}

/// A supervisor of the script `name`.
pub struct Supervisor {
    pub name: String,
    pub generation: u64,
    pub phase: Phase,
}

/// The model of a [`Supervisor`].
pub struct SupervisorModel {
    pub name: Seq<char>,
    pub generation: u64,
    pub phase: Phase,
}

/// The model of a [`Report`].
pub enum ReportModel {
    Flags { shutdown: bool, stop: bool },
    Launched(u32),
    LaunchFailed(Seq<char>),
    ChildExited(Option<i32>),
}

/// The model of an [`Effect`].
pub enum EffectModel {
    Send(OutputModel),
    Register(u32),
    Unregister(u32),
}

/// The answer of a supervisor.
pub struct AnswerModel {
    pub phase: Phase,
    pub effects: Seq<EffectModel>,
    pub next: Next,
}

impl View for Supervisor {
    type V = SupervisorModel;

    open spec fn view(&self) -> SupervisorModel {
        SupervisorModel { name: self.name@, generation: self.generation, phase: self.phase }
    }
}

impl View for Report {
    type V = ReportModel;

    open spec fn view(&self) -> ReportModel {
        match *self {
            Report::Flags { shutdown, stop } => ReportModel::Flags { shutdown, stop },
            Report::Launched(pid) => ReportModel::Launched(pid),
            Report::LaunchFailed(e) => ReportModel::LaunchFailed(e@),
            Report::ChildExited(code) => ReportModel::ChildExited(code),
        }
    }
}

impl View for Effect {
    type V = EffectModel;

    open spec fn view(&self) -> EffectModel {
        match *self {
            Effect::Send(line) => EffectModel::Send(line@),
            Effect::Register(pid) => EffectModel::Register(pid),
            Effect::Unregister(pid) => EffectModel::Unregister(pid),
        }
    }
}

/// The report is one that the supervisor waits for.
pub open spec fn expects(phase: Phase, report: ReportModel) -> bool {
    match phase {
        Phase::Ready | Phase::Failed | Phase::Started(_) | Phase::Ended | Phase::Waiting =>
            report is Flags,
        Phase::Launching => report is Launched || report is LaunchFailed,
        Phase::Interrupted(_) | Phase::Running(_) => report is ChildExited,
        Phase::Done => false,
    }
}

/// The report that the command could not be started.
pub open spec fn failure_line(s: SupervisorModel, e: Seq<char>) -> EffectModel {
    EffectModel::Send(
        OutputModel::Stderr { script_name: s.name, line: "failed to spawn: "@ + e },
    )
}

/// The report that the script exited.
pub open spec fn exited_line(s: SupervisorModel, code: Option<i32>) -> EffectModel {
    EffectModel::Send(
        OutputModel::Exited { script_name: s.name, code, generation: s.generation },
    )
}

/// The report that the supervisor waits before the next start.
pub open spec fn restarting_line(s: SupervisorModel) -> EffectModel {
    EffectModel::Send(
        OutputModel::Restarting { script_name: s.name, generation: s.generation },
    )
}

/// The report that the supervisor starts the command again.
pub open spec fn restarted_line(s: SupervisorModel) -> EffectModel {
    EffectModel::Send(OutputModel::Restarted { script_name: s.name, generation: s.generation })
}

/// The end of a supervisor.
pub open spec fn returned() -> AnswerModel {
    AnswerModel { phase: Phase::Done, effects: Seq::empty(), next: Next::Return }
}

/// The delay before the next start.
pub open spec fn delayed(s: SupervisorModel) -> AnswerModel {
    AnswerModel { phase: Phase::Waiting, effects: seq![restarting_line(s)], next: Next::Pause }
}

/// What a supervisor answers to a report that it waits for.
pub open spec fn answer(s: SupervisorModel, report: ReportModel) -> AnswerModel {
    match (s.phase, report) {
        (Phase::Ready, ReportModel::Flags { shutdown, stop }) => if shutdown || stop {
            returned()
        } else {
            AnswerModel { phase: Phase::Launching, effects: Seq::empty(), next: Next::Launch }
        },
        (Phase::Launching, ReportModel::LaunchFailed(e)) => AnswerModel {
            phase: Phase::Failed,
            effects: seq![failure_line(s, e), exited_line(s, None)],
            next: Next::ReadFlags,
        },
        (Phase::Failed, ReportModel::Flags { shutdown, stop }) => if stop {
            returned()
        } else {
            delayed(s)
        },
        (Phase::Launching, ReportModel::Launched(pid)) => AnswerModel {
            phase: Phase::Started(pid),
            effects: seq![EffectModel::Register(pid)],
            next: Next::ReadFlags,
        },
        (Phase::Started(pid), ReportModel::Flags { shutdown, stop }) => if stop {
            AnswerModel {
                phase: Phase::Interrupted(pid),
                effects: Seq::empty(),
                next: Next::InterruptChild(pid),
            }
        } else {
            AnswerModel {
                phase: Phase::Running(pid),
                effects: Seq::empty(),
                next: Next::AwaitChild(pid),
            }
        },
        (Phase::Interrupted(pid), ReportModel::ChildExited(_)) => AnswerModel {
            phase: Phase::Done,
            effects: seq![EffectModel::Unregister(pid), exited_line(s, None)],
            next: Next::Return,
        },
        (Phase::Running(pid), ReportModel::ChildExited(code)) => AnswerModel {
            phase: Phase::Ended,
            effects: seq![EffectModel::Unregister(pid), exited_line(s, code)],
            next: Next::ReadFlags,
        },
        (Phase::Ended, ReportModel::Flags { shutdown, stop }) => if shutdown || stop {
            returned()
        } else {
            delayed(s)
        },
        (Phase::Waiting, ReportModel::Flags { shutdown, stop }) => if shutdown || stop {
            returned()
        } else {
            AnswerModel {
                phase: Phase::Ready,
                effects: seq![restarted_line(s)],
                next: Next::ReadFlags,
            }
        },
        _ => AnswerModel { phase: s.phase, effects: Seq::empty(), next: Next::ReadFlags },
    }
}

impl Supervisor {
    /// A supervisor that has yet to start its command. Its first move is to read the flags.
    pub fn new(name: String, generation: u64) -> (r: Supervisor)
        ensures
            r@ == (SupervisorModel { name: name@, generation, phase: Phase::Ready }),
    {
        Supervisor { name, generation, phase: Phase::Ready }
    }

    fn exited(&self, code: Option<i32>) -> (r: Effect)
        ensures
            r@ == exited_line(self@, code),
    {
        Effect::Send(
            OutputLine::Exited {
                script_name: self.name.clone(),
                code,
                generation: self.generation,
            },
        )
    }

    fn restarting(&self) -> (r: Effect)
        ensures
            r@ == restarting_line(self@),
    {
        Effect::Send(
            OutputLine::Restarting {
                script_name: self.name.clone(),
                generation: self.generation,
            },
        )
    }
}

/// One turn of a supervisor: it is told what it waits for, does what the answer lists, in that
/// order, and goes on with the next move.
pub fn supervise(supervisor: &mut Supervisor, report: Report) -> (r: (Vec<Effect>, Next))
    requires
        expects(old(supervisor)@.phase, report@),
    ensures
        final(supervisor)@ == (SupervisorModel {
            phase: answer(old(supervisor)@, report@).phase,
            ..old(supervisor)@
        }),
        seqs::views(r.0@) == answer(old(supervisor)@, report@).effects,
        r.1 == answer(old(supervisor)@, report@).next,
{
    let ghost expected = answer(supervisor@, report@);
    let mut effects: Vec<Effect> = Vec::new();
    let next = match (supervisor.phase, report) {
        (Phase::Ready, Report::Flags { shutdown, stop }) => {
            if shutdown || stop {
                supervisor.phase = Phase::Done;
                Next::Return
            } else {
                supervisor.phase = Phase::Launching;
                Next::Launch
            }
        },
        (Phase::Launching, Report::LaunchFailed(e)) => {
            effects.push(
                Effect::Send(
                    OutputLine::Stderr {
                        script_name: supervisor.name.clone(),
                        line: joined("failed to spawn: ", e.as_str()),
                    },
                ),
            );
            effects.push(supervisor.exited(None));
            supervisor.phase = Phase::Failed;
            Next::ReadFlags
        },
        (Phase::Failed, Report::Flags { shutdown: _, stop }) => {
            if stop {
                supervisor.phase = Phase::Done;
                Next::Return
            } else {
                effects.push(supervisor.restarting());
                supervisor.phase = Phase::Waiting;
                Next::Pause
            }
        },
        (Phase::Launching, Report::Launched(pid)) => {
            effects.push(Effect::Register(pid));
            supervisor.phase = Phase::Started(pid);
            Next::ReadFlags
        },
        (Phase::Started(pid), Report::Flags { shutdown: _, stop }) => {
            if stop {
                supervisor.phase = Phase::Interrupted(pid);
                Next::InterruptChild(pid)
            } else {
                supervisor.phase = Phase::Running(pid);
                Next::AwaitChild(pid)
            }
        },
        (Phase::Interrupted(pid), Report::ChildExited(_)) => {
            effects.push(Effect::Unregister(pid));
            effects.push(supervisor.exited(None));
            supervisor.phase = Phase::Done;
            Next::Return
        },
        (Phase::Running(pid), Report::ChildExited(code)) => {
            effects.push(Effect::Unregister(pid));
            effects.push(supervisor.exited(code));
            supervisor.phase = Phase::Ended;
            Next::ReadFlags
        },
        (Phase::Ended, Report::Flags { shutdown, stop }) => {
            if shutdown || stop {
                supervisor.phase = Phase::Done;
                Next::Return
            } else {
                effects.push(supervisor.restarting());
                supervisor.phase = Phase::Waiting;
                Next::Pause
            }
        },
        (Phase::Waiting, Report::Flags { shutdown, stop }) => {
            if shutdown || stop {
                supervisor.phase = Phase::Done;
                Next::Return
            } else {
                effects.push(
                    Effect::Send(
                        OutputLine::Restarted {
                            script_name: supervisor.name.clone(),
                            generation: supervisor.generation,
                        },
                    ),
                );
                supervisor.phase = Phase::Ready;
                Next::ReadFlags
            }
        },
        _ => Next::ReadFlags,
    };
    assert(seqs::views(effects@) =~= expected.effects);
    (effects, next)
}

/// The nap that a wait goes on with, if it goes on.
pub open spec fn nap_model(elapsed_ms: u64, duration_ms: u64, shutdown: bool, stop: bool) -> Option<
    u64,
> {
    if elapsed_ms < duration_ms && !shutdown && !stop {
        Some(NAP_MS)
    } else {
        None
    }
}

/// One look at the flags during a wait of `duration_ms`, of which `elapsed_ms` has passed: how
/// long to sleep before the next look, or `None` once the wait is over or a flag is set.
pub fn sleep_or_stop(
    elapsed_ms: &mut u64,
    duration_ms: u64,
    shutdown: bool,
    stop: bool,
) -> (r: Option<u64>)
    requires
        duration_ms <= u64::MAX - NAP_MS,
    ensures
        r == nap_model(*old(elapsed_ms), duration_ms, shutdown, stop),
        r == if *old(elapsed_ms) < duration_ms && !shutdown && !stop {
            Some(NAP_MS)
        } else {
            None::<u64>
        },
        *final(elapsed_ms) == *old(elapsed_ms) + (if r is Some {
            NAP_MS as int
        } else {
            0
        }),
{
    if *elapsed_ms < duration_ms {
        if shutdown || stop {
            return None;
        }
        *elapsed_ms = *elapsed_ms + NAP_MS;
        Some(NAP_MS)
    } else {
        None
    }
}

/// The number of naps that are left of a wait that no flag cuts short.
pub open spec fn naps(elapsed_ms: int, duration_ms: int) -> nat
    decreases seqs::monus(duration_ms, elapsed_ms),
{
    if elapsed_ms < duration_ms {
        1 + naps(elapsed_ms + NAP_MS, duration_ms)
    } else {
        0
    }
}

/// A wait that no flag cuts short takes as long as it was meant to, and less than a nap longer.
pub proof fn wait_is_long_enough(elapsed_ms: int, duration_ms: int)
    requires
        elapsed_ms <= duration_ms,
    ensures
        elapsed_ms + NAP_MS * naps(elapsed_ms, duration_ms) >= duration_ms,
        elapsed_ms + NAP_MS * naps(elapsed_ms, duration_ms) < duration_ms + NAP_MS,
    decreases duration_ms - elapsed_ms,
{
    if elapsed_ms < duration_ms {
        if elapsed_ms + NAP_MS <= duration_ms {
            wait_is_long_enough(elapsed_ms + NAP_MS, duration_ms);
        } else {
            assert(naps(elapsed_ms + NAP_MS, duration_ms) == 0);
        }
        assert(NAP_MS * (1 + naps(elapsed_ms + NAP_MS, duration_ms)) == NAP_MS + NAP_MS * naps(
            elapsed_ms + NAP_MS,
            duration_ms,
        )) by (nonlinear_arith);
    }
}

/// What the watcher of a child does.
#[derive(Clone, Copy, Debug, PartialEq, Eq, Structural)]
pub enum Watch {
    /// Interrupt the child's process group and end.
    Interrupt,
    /// End.
    Finish,
    /// Sleep, then look again.
    Nap,
}

/// What the watcher of a child does about what it sees.
pub open spec fn watch_model(shutdown: bool, stop: bool, exited: bool) -> Watch {
    if stop {
        Watch::Interrupt
    } else if shutdown || exited {
        Watch::Finish
    } else {
        Watch::Nap
    }
}

/// One look of the watcher of a child. A stop is passed on to the child; on a shutdown the
/// children are interrupted elsewhere, and a child that has exited needs no watching.
pub fn watch_child(shutdown: bool, stop: bool, exited: bool) -> (r: Watch)
    ensures
        r == watch_model(shutdown, stop, exited),
        r is Interrupt <==> stop,
        r is Finish <==> !stop && (shutdown || exited),
        r is Nap <==> !stop && !shutdown && !exited,
{
    if stop {
        Watch::Interrupt
    } else if shutdown || exited {
        Watch::Finish
    } else {
        Watch::Nap
    }
}

} // verus!
