//! The state of the program and what every event does to it.
use std::collections::VecDeque;
use std::sync::atomic::AtomicBool;

use vstd::prelude::*;

use crate::config::{Config, UrlConfig};
use crate::display::{
    ratatui_color, styled_config_error_line, styled_config_reload_line, styled_exit_line,
    styled_restart_line, styled_stderr_line, styled_stdout_line, Line,
};
use crate::process::{read_flag, Event, EventModel, OutputLine};
use crate::reload;
use crate::reload::apply_config_reload;
use crate::script;
use crate::script::{
    find_generation, find_named, name_width as column_width, spawn_supervisor, Action, ScriptState,
};
use crate::seqs;
use crate::step;
use crate::step::{
    Dialog, LogModel, LoopAction, MuxModel, KEY_NINE, KEY_ONE, KEY_OPEN, KEY_QUIT, KEY_RESTART,
    MAX_LOG_LINES,
};
use crate::terminal::RunState;

verus! {

/// A line of the log.
pub struct LogEntry {
    pub script_name: String,
    pub formatted: Line,
    /// It is shown even where the output of its script is not.
    pub always_visible: bool,
}

impl View for LogEntry {
    type V = LogModel;

    open spec fn view(&self) -> LogModel {
        LogModel {
            script_name: self.script_name@,
            formatted: self.formatted@,
            always_visible: self.always_visible,
        }
    }
}

/// The state of the program.
pub struct Mux {
    pub scripts: Vec<ScriptState>,
    pub urls: Vec<UrlConfig>,
    pub log: VecDeque<LogEntry>,
    pub name_width: usize,
    pub scroll_offset: usize,
    pub shutting_down: bool,
    pub exited_count: usize,
    pub dialog: Option<Dialog>,
    pub buffered_events: Vec<Event>,
}

impl View for Mux {
    type V = MuxModel;

    open spec fn view(&self) -> MuxModel {
        MuxModel {
            scripts: seqs::views(self.scripts@),
            urls: seqs::views(self.urls@),
            log: seqs::views(self.log@),
            name_width: self.name_width as nat,
            scroll_offset: self.scroll_offset,
            shutting_down: self.shutting_down,
            exited_count: self.exited_count as nat,
            dialog: self.dialog,
            buffered: seqs::views(self.buffered_events@),
        }
    }
}

/// Appends a line to the log and drops the oldest ones where there are too many.
pub fn push_log(log: &mut VecDeque<LogEntry>, entry: LogEntry)
    ensures
        seqs::views(final(log)@) == step::logged(seqs::views(old(log)@), entry@),
{
    let ghost longer = log@.push(entry);
    log.push_back(entry);
    let ghost mut gone: int = 0;
    while log.len() > MAX_LOG_LINES
        invariant
            0 <= gone <= longer.len(),
            log@ == longer.skip(gone),
            gone == 0 || log@.len() >= MAX_LOG_LINES,
        decreases log.len(),
    {
        let _ = log.pop_front();
        proof {
            gone = gone + 1;
            assert(log@ =~= longer.skip(gone));
        }
    }
    assert(seqs::views(log@) =~= step::logged(seqs::views(old(log)@), entry@));
}

/// Where readings of the shutdown flag come from.
enum Flags<'a> {
    /// They were made before.
    Given(&'a [bool]),
    /// They are made as they are needed.
    Live(&'a AtomicBool),
}

impl<'a> Flags<'a> {
    /// A reading can find the flag set.
    spec fn can_be_set(self) -> bool {
        match self {
            Flags::Given(flags) => step::some_flag(flags@),
            Flags::Live(_) => true,
        }
    }

    /// The readings from `from` on can be these.
    spec fn can_give(self, from: int, flags: Seq<bool>) -> bool {
        self matches Flags::Given(given) ==> forall|i: int|
            0 <= i < flags.len() ==> #[trigger] flags[i] == step::flag_at(given@, from + i)
    }

    /// The reading `i`.
    fn read(&self, i: usize) -> (r: bool)
        ensures
            *self matches Flags::Given(flags) ==> r == step::flag_at(flags@, i as int),
            r ==> self.can_be_set(),
    {
        match self {
            Flags::Given(flags) => {
                let r = i < flags.len() && flags[i];
                assert(r == step::flag_at(flags@, i as int));
                r
            },
            Flags::Live(flag) => read_flag(flag),
        }
    }
}

/// The readings that are left over where the loop ended early.
spec fn unread(source: Flags, from: int, read: Seq<bool>, count: int) -> Seq<bool> {
    Seq::new(
        count as nat,
        |i: int|
            if i < read.len() {
                read[i]
            } else {
                match source {
                    Flags::Given(given) => step::flag_at(given@, from + i),
                    Flags::Live(_) => false,
                }
            },
    )
}

impl Mux {
    /// The state at the start, and the requests to start the supervisors.
    pub fn new(config: Config) -> (r: (Mux, Vec<Action>))
        ensures
            r.0@ == step::initial(config@),
            seqs::views(r.1@) == reload::spawns(r.0@.scripts),
            step::no_key_waits(r.0@),
    {
        let ghost c = config@;
        let mut scripts: Vec<ScriptState> = Vec::new();
        let mut actions: Vec<Action> = Vec::new();
        for i in 0..config.scripts.len()
            invariant
                c == config@,
                scripts.len() == i,
                actions.len() == i,
                forall|j: int|
                    0 <= j < i ==> (#[trigger] scripts@[j])@ == step::initial_script(
                        j,
                        c.scripts[j],
                    ),
                forall|j: int|
                    0 <= j < i ==> (#[trigger] actions@[j])@ == script::spawn_model(
                        step::initial_script(j, c.scripts[j]),
                    ),
        {
            let entry = &config.scripts[i];
            let state = ScriptState {
                name: entry.name.clone(),
                cmd: entry.cmd.clone(),
                visible: true,
                run_state: RunState::Running,
                color: ratatui_color(i),
                slot: i,
                stopping: false,
                generation: 0,
            };
            actions.push(spawn_supervisor(&state));
            scripts.push(state);
        }
        assert(seqs::views(scripts@) =~= step::initial_scripts(c.scripts));
        assert(seqs::views(actions@) =~= reload::spawns(step::initial_scripts(c.scripts)));
        let urls = match config.urls {
            Some(urls) => urls,
            None => Vec::new(),
        };
        assert(seqs::views(urls@) =~= c.urls);
        let name_width: usize = column_width(&scripts);
        let mux = Mux {
            scripts,
            urls,
            log: VecDeque::new(),
            name_width,
            scroll_offset: usize::MAX,
            shutting_down: false,
            exited_count: 0,
            dialog: None,
            buffered_events: Vec::new(),
        };
        assert(mux@.log =~= Seq::empty());
        assert(mux@.buffered =~= Seq::empty());
        (mux, actions)
    }

    /// A line of output of the script `name`.
    pub fn handle_output(&mut self, name: String, line: String, is_stderr: bool)
        ensures
            final(self)@ == step::output_step(old(self)@, name@, line@, is_stderr),
            final(self).buffered_events == old(self).buffered_events,
    {
        if let Some(k) = find_named(&self.scripts, &name) {
            let script = &self.scripts[k];
            let styled = if is_stderr {
                styled_stderr_line(
                    script.name.as_str(),
                    script.color,
                    line.as_str(),
                    self.name_width,
                )
            } else {
                styled_stdout_line(
                    script.name.as_str(),
                    script.color,
                    line.as_str(),
                    self.name_width,
                )
            };
            push_log(
                &mut self.log,
                LogEntry { script_name: name, formatted: styled, always_visible: false },
            );
        }
    }

    /// The exit of the script `name`.
    fn handle_exited(&mut self, name: String, code: Option<i32>, generation: u64) -> (r: LoopAction)
        requires
            old(self).shutting_down ==> old(self).exited_count < usize::MAX,
        ensures
            final(self)@ == step::exited_step(old(self)@, name@, code, generation).mux,
            r == step::exited_step(old(self)@, name@, code, generation).flow,
    {
        let ghost before = self@;
        if let Some(k) = find_named(&self.scripts, &name) {
            let was_stopping = self.scripts[k].stopping;
            if self.scripts[k].generation == generation {
                self.scripts[k].run_state = RunState::Exited(code);
            }
            let ghost ended = self.scripts@[k as int]@;
            assert(seqs::views(self.scripts@) =~= before.scripts.update(k as int, ended));
            let styled = styled_exit_line(
                self.scripts[k].name.as_str(),
                self.scripts[k].color,
                code,
                self.name_width,
            );
            push_log(
                &mut self.log,
                LogEntry { script_name: name, formatted: styled, always_visible: true },
            );
            if was_stopping {
                let _ = self.scripts.remove(k);
                assert(seqs::views(self.scripts@) =~= before.scripts.remove(k as int));
            }
        }
        assert(self@ == step::exit_noted(before, name@, code, generation));
        if self.shutting_down {
            self.exited_count = self.exited_count + 1;
            if self.exited_count >= self.scripts.len() {
                return LoopAction::Break;
            }
        }
        LoopAction::Continue
    }

    /// The supervisor of `name` waits before it starts its command again.
    fn handle_restarting(&mut self, name: String, generation: u64)
        ensures
            final(self)@ == step::restarting_step(old(self)@, name@, generation),
    {
        if let Some(k) = find_generation(&self.scripts, &name, generation) {
            self.scripts[k].run_state = RunState::Restarting;
            assert(self@.scripts =~= step::restarting_step(
                old(self)@,
                name@,
                generation,
            ).scripts);
        }
    }

    /// The supervisor of `name` starts its command again.
    fn handle_restarted(&mut self, name: String, generation: u64)
        ensures
            final(self)@ == step::restarted_step(old(self)@, name@, generation),
    {
        if let Some(k) = find_generation(&self.scripts, &name, generation) {
            self.scripts[k].run_state = RunState::Running;
            assert(self@.scripts =~= step::restarted_step(old(self)@, name@, generation).scripts);
            let styled = styled_restart_line(
                self.scripts[k].name.as_str(),
                self.scripts[k].color,
                self.name_width,
            );
            push_log(
                &mut self.log,
                LogEntry { script_name: name, formatted: styled, always_visible: true },
            );
        }
    }

    /// A new configuration takes effect.
    fn handle_reload(&mut self, new_config: Config) -> (r: Vec<Action>)
        ensures
            final(self)@ == step::reload_step(old(self)@, new_config@).mux,
            seqs::views(r@) == step::reload_step(old(self)@, new_config@).actions,
    {
        if self.shutting_down {
            let none: Vec<Action> = Vec::new();
            assert(seqs::views(none@) =~= Seq::empty());
            return none;
        }
        let actions = apply_config_reload(&new_config, &mut self.scripts, &mut self.name_width);
        match new_config.urls {
            Some(urls) => {
                self.urls = urls;
            },
            None => {
                self.urls = Vec::new();
                assert(seqs::views(self.urls@) =~= Seq::empty());
            },
        }
        let script_name = String::new();
        push_log(
            &mut self.log,
            LogEntry {
                script_name,
                formatted: styled_config_reload_line(),
                always_visible: true,
            },
        );
        actions
    }

    /// A key, with no dialog open.
    fn handle_key(&mut self, b: u8) -> (r: Vec<Action>)
        ensures
            final(self)@ == step::key_step(old(self)@, b).mux,
            seqs::views(r@) == step::key_step(old(self)@, b).actions,
    {
        let mut actions: Vec<Action> = Vec::new();
        assert(seqs::views(actions@) =~= Seq::empty());
        if self.shutting_down {
            return actions;
        }
        if b == KEY_OPEN {
            if !self.urls.is_empty() {
                self.show_dialog(Dialog::Urls);
            }
        } else if b == KEY_RESTART {
            if !self.scripts.is_empty() {
                self.show_dialog(Dialog::Restart);
            }
        } else if b == KEY_QUIT {
            self.shutting_down = true;
            actions.push(Action::TriggerShutdown);
            assert(seqs::views(actions@) =~= step::key_step(old(self)@, b).actions);
        } else if KEY_ONE <= b && b <= KEY_NINE {
            let k: usize = (b - KEY_ONE) as usize;
            if k < self.scripts.len() {
                self.scripts[k].visible = !self.scripts[k].visible;
                assert(self@.scripts =~= step::key_step(old(self)@, b).mux.scripts);
            }
        }
        actions
    }

    /// An event, with no dialog open.
    fn handle_plain(&mut self, event: Event) -> (r: (LoopAction, Vec<Action>))
        requires
            old(self).shutting_down && step::of_an_exit()(event@) ==> old(self).exited_count
                < usize::MAX,
        ensures
            final(self)@ == step::plain_step(old(self)@, event@).mux,
            r.0 == step::plain_step(old(self)@, event@).flow,
            seqs::views(r.1@) == step::plain_step(old(self)@, event@).actions,
    {
        let none: Vec<Action> = Vec::new();
        assert(seqs::views(none@) =~= Seq::empty());
        match event {
            Event::Keypress(b) => {
                let actions = self.handle_key(b);
                return (LoopAction::Continue, actions);
            },
            Event::Output(OutputLine::Stdout { script_name, line }) => {
                self.handle_output(script_name, line, false);
            },
            Event::Output(OutputLine::Stderr { script_name, line }) => {
                self.handle_output(script_name, line, true);
            },
            Event::Output(OutputLine::Exited { script_name, code, generation }) => {
                let flow = self.handle_exited(script_name, code, generation);
                return (flow, none);
            },
            Event::Output(OutputLine::Restarting { script_name, generation }) => {
                self.handle_restarting(script_name, generation);
            },
            Event::Output(OutputLine::Restarted { script_name, generation }) => {
                self.handle_restarted(script_name, generation);
            },
            Event::ConfigReloaded(new_config) => {
                let actions = self.handle_reload(new_config);
                return (LoopAction::Continue, actions);
            },
            Event::ConfigError(msg) => {
                let script_name = String::new();
                push_log(
                    &mut self.log,
                    LogEntry {
                        script_name,
                        formatted: styled_config_error_line(msg.as_str()),
                        always_visible: true,
                    },
                );
            },
            Event::Resize(_, _) => {},
        }
        (LoopAction::Continue, none)
    }

    /// Opens a dialog.
    pub fn show_dialog(&mut self, kind: Dialog)
        ensures
            final(self)@ == (MuxModel { dialog: Some(kind), ..old(self)@ }),
    {
        self.dialog = Some(kind);
    }

    /// Closes the dialog and handles the events that waited for that. Before each the shutdown
    /// flag is read; `shutdown` holds the readings, and where it ends, the flag is not set. Where
    /// an event ends the loop, the rest are dropped. Returns what the system is asked to do, in
    /// order, and `Break` if the loop ends.
    pub fn dismiss_dialog(&mut self, shutdown: &[bool]) -> (r: (LoopAction, Vec<Action>))
        requires
            step::no_key_waits(old(self)@),
            old(self).shutting_down || step::some_flag(shutdown@) ==> old(self).exited_count
                + step::exits(old(self)@.buffered) <= usize::MAX,
        ensures
            final(self)@ == step::dismiss_step(old(self)@, shutdown@).mux,
            r.0 == step::dismiss_step(old(self)@, shutdown@).flow,
            seqs::views(r.1@) == step::dismiss_step(old(self)@, shutdown@).actions,
            final(self).buffered_events@.len() == 0,
    {
        let ghost events = self@.buffered;
        let ghost start = step::closed(self@);
        let (flow, actions, Ghost(flags)) = self.replay_waiting(&Flags::Given(shutdown), 0);
        proof {
            assert forall|i: int| 0 <= i < events.len() implies #[trigger] step::flag_at(flags, i)
                == step::flag_at(shutdown@, i) by {
                assert(flags[i] == step::flag_at(shutdown@, 0 + i));
            }
            step::lemma_readings_agree(start, events, flags, shutdown@, events.len() as int);
        }
        (flow, actions)
    }

    /// An event that waited, with a reading of the shutdown flag.
    fn handle_noted(&mut self, event: Event, flag: bool) -> (r: (LoopAction, Vec<Action>))
        requires
            (old(self).shutting_down || flag) && step::of_an_exit()(event@) ==> old(
                self,
            ).exited_count < usize::MAX,
            old(self).buffered_events@.len() == 0,
        ensures
            final(self)@ == step::noted_step(old(self)@, event@, flag).mux,
            r.0 == step::noted_step(old(self)@, event@, flag).flow,
            seqs::views(r.1@) == step::noted_step(old(self)@, event@, flag).actions,
            final(self).buffered_events@.len() == 0,
            !(event@ is Keypress) && final(self).shutting_down ==> old(self).shutting_down || flag,
            final(self).exited_count <= old(self).exited_count + (if step::of_an_exit()(event@) {
                1int
            } else {
                0
            }),
    {
        reveal(step::noted_step);
        if !self.shutting_down && flag {
            self.shutting_down = true;
        }
        assert(self@ == step::noted(old(self)@, flag));
        let r = self.handle_plain(event);
        assert(self.buffered_events@.len() == self@.buffered.len());
        r
    }

    /// Closes the dialog and handles the events that waited. The readings that were made come
    /// with the result.
    #[verifier::spinoff_prover]
    fn replay_waiting(&mut self, source: &Flags, from: usize) -> (r: (
        LoopAction,
        Vec<Action>,
        Ghost<Seq<bool>>,
    ))
        requires
            step::no_key_waits(old(self)@),
            from <= 1,
            old(self).shutting_down || source.can_be_set() ==> old(self).exited_count
                + step::exits(old(self)@.buffered) <= usize::MAX,
        ensures
            final(self)@ == step::dismiss_step(old(self)@, r.2@).mux,
            r.0 == step::dismiss_step(old(self)@, r.2@).flow,
            seqs::views(r.1@) == step::dismiss_step(old(self)@, r.2@).actions,
            final(self).buffered_events@.len() == 0,
            r.2@.len() == old(self)@.buffered.len(),
            source.can_give(from as int, r.2@),
    {
        let ghost start = step::closed(self@);
        self.dialog = None;
        let mut buffered: Vec<Event> = Vec::new();
        std::mem::swap(&mut buffered, &mut self.buffered_events);
        let ghost events = seqs::views(buffered@);
        let ghost mut read: Seq<bool> = Seq::empty();
        let mut actions: Vec<Action> = Vec::new();
        let mut i: usize = 0;
        let count: usize = buffered.len();
        proof {
            assert(self@.buffered =~= Seq::empty());
            assert(seqs::views(actions@) =~= Seq::empty());
            step::lemma_exits_none(events);
        }
        for event in waiting: buffered
            invariant
                events == seqs::views(waiting.seq()),
                i == waiting.index(),
                count == events.len(),
                from <= 1,
                start == step::closed(old(self)@),
                events == old(self)@.buffered,
                read.len() == i,
                source.can_give(from as int, read),
                self.buffered_events@.len() == 0,
                forall|j: int| 0 <= j < events.len() ==> !(#[trigger] events[j] is Keypress),
                self@ == step::replayed(start, events, read, i as int).mux,
                seqs::views(actions@) == step::replayed(start, events, read, i as int).actions,
                step::replayed(start, events, read, i as int).flow is Continue,
                start.shutting_down || source.can_be_set() ==> start.exited_count + step::exits(
                    events,
                ) <= usize::MAX,
                self.shutting_down ==> start.shutting_down || source.can_be_set(),
                self.exited_count <= start.exited_count + step::exits(events.take(i as int)),
        {
            let ghost asked = actions@;
            let ghost before = read;
            assert(events[i as int] == event@);
            let flag = source.read(from + i);
            proof {
                read = read.push(flag);
                step::lemma_exits_take(events, i as int);
                step::lemma_readings_agree(start, events, before, read, i as int);
                assert(step::flag_at(read, i as int) == flag);
            }
            let (flow, mut more) = self.handle_noted(event, flag);
            let ghost added = more@;
            actions.append(&mut more);
            assert(seqs::views(actions@) =~= seqs::views(asked) + seqs::views(added));
            if let LoopAction::Break = flow {
                let ghost all = unread(*source, from as int, read, events.len() as int);
                proof {
                    step::lemma_readings_agree(start, events, read, all, i + 1);
                    step::lemma_end_stays(start, events, all, i + 1, events.len() as int);
                }
                return (flow, actions, Ghost(all));
            }
            i = i + 1;
        }
        (LoopAction::Continue, actions, Ghost(read))
    }

    /// Replaces the supervisor of the script at `idx` by one of the next generation, whose
    /// events can be told from those of the old one.
    pub fn restart_script(&mut self, idx: usize) -> (r: Vec<Action>)
        requires
            idx < old(self).scripts.len(),
            old(self).scripts[idx as int].generation < u64::MAX,
        ensures
            final(self)@ == step::restart_step(old(self)@, idx as int).mux,
            seqs::views(r@) == step::restart_step(old(self)@, idx as int).actions,
            final(self).buffered_events == old(self).buffered_events,
    {
        let mut actions: Vec<Action> = Vec::new();
        let slot: usize = self.scripts[idx].slot;
        actions.push(Action::Stop { slot });
        self.scripts[idx].generation = self.scripts[idx].generation + 1;
        self.scripts[idx].run_state = RunState::Restarting;
        self.scripts[idx].stopping = false;
        actions.push(spawn_supervisor(&self.scripts[idx]));
        assert(self@.scripts =~= step::restart_step(old(self)@, idx as int).mux.scripts);
        assert(seqs::views(actions@) =~= step::restart_step(old(self)@, idx as int).actions);
        actions
    }

    /// The choice of entry `k` in the dialog `d`.
    fn choose_entry(&mut self, d: Dialog, k: usize) -> (r: Vec<Action>)
        requires
            d == Dialog::Restart && k < old(self).scripts.len() && !old(
                self,
            ).scripts[k as int].stopping ==> old(self).scripts[k as int].generation < u64::MAX,
        ensures
            final(self)@ == step::choose_step(old(self)@, d, k as int).mux,
            seqs::views(r@) == step::choose_step(old(self)@, d, k as int).actions,
            final(self).buffered_events == old(self).buffered_events,
    {
        let mut actions: Vec<Action> = Vec::new();
        assert(seqs::views(actions@) =~= Seq::empty());
        match d {
            Dialog::Urls => {
                if k < self.urls.len() {
                    actions.push(Action::OpenUrl(self.urls[k].url.clone()));
                    assert(seqs::views(actions@) =~= step::choose_step(
                        old(self)@,
                        d,
                        k as int,
                    ).actions);
                }
            },
            Dialog::Restart => {
                if k < self.scripts.len() && !self.scripts[k].stopping {
                    return self.restart_script(k);
                }
            },
        }
        actions
    }

    /// Handles one event. The shutdown flag is read before it, and again before each event that
    /// waited for it; `shutdown` holds the readings, and where it ends, the flag is not set.
    ///
    /// With a dialog open, a digit picks an entry, any key closes the dialog, and other events
    /// wait until it is closed. Returns what the system is asked to do, in order, and `Break`
    /// if the loop ends, be it with this event or with one that waited for it.
    pub fn handle_event(&mut self, event: Event, shutdown: &[bool]) -> (r: (
        LoopAction,
        Vec<Action>,
    ))
        requires
            step::no_key_waits(old(self)@),
            step::has_room(old(self)@, event@, shutdown@),
        ensures
            final(self)@ == step::step(old(self)@, event@, shutdown@).mux,
            r.0 == step::step(old(self)@, event@, shutdown@).flow,
            seqs::views(r.1@) == step::step(old(self)@, event@, shutdown@).actions,
            step::no_key_waits(final(self)@),
    {
        let ghost before = self@;
        let (flow, actions, Ghost(flags)) = self.handle_read(event, &Flags::Given(shutdown));
        proof {
            lemma_step_agrees(before, event@, flags, shutdown@);
        }
        (flow, actions)
    }

    /// Handles one event, as [`Mux::handle_event`] does, and reads the shutdown flag itself: the
    /// outcome is that of some readings.
    pub fn handle_now(&mut self, event: Event, shutdown: &AtomicBool) -> (r: (
        LoopAction,
        Vec<Action>,
    ))
        requires
            step::no_key_waits(old(self)@),
            step::exits_have_room(old(self)@, event@),
            !old(self).shutting_down ==> step::generation_has_room(old(self)@, event@),
        ensures
            exists|flags: Seq<bool>|
                {
                    let next = #[trigger] step::step(old(self)@, event@, flags);
                    &&& final(self)@ == next.mux
                    &&& r.0 == next.flow
                    &&& seqs::views(r.1@) == next.actions
                },
            step::no_key_waits(final(self)@),
    {
        let (flow, actions, Ghost(_flags)) = self.handle_read(event, &Flags::Live(shutdown));
        (flow, actions)
    }

    /// The key `b`, with dialog `d` open. The readings that were made come with the result.
    fn close_with_key(&mut self, d: Dialog, b: u8, source: &Flags) -> (r: (
        LoopAction,
        Vec<Action>,
        Ghost<Seq<bool>>,
    ))
        requires
            step::no_key_waits(old(self)@),
            old(self).dialog == Some(d),
            old(self).shutting_down || source.can_be_set() ==> old(self).exited_count
                + step::exits(old(self)@.buffered) <= usize::MAX,
            !old(self).shutting_down ==> step::generation_has_room(
                old(self)@,
                EventModel::Keypress(b),
            ),
        ensures
            ({
                let next = step::dialog_step(old(self)@, d, EventModel::Keypress(b), r.2@);
                &&& final(self)@ == next.mux
                &&& r.0 == next.flow
                &&& seqs::views(r.1@) == next.actions
            }),
            final(self).buffered_events@.len() == 0,
            r.2@.len() == old(self)@.buffered.len(),
            source.can_give(1, r.2@),
    {
        let mut actions: Vec<Action> = Vec::new();
        assert(seqs::views(actions@) =~= Seq::empty());
        if KEY_ONE <= b && b <= KEY_NINE && !self.shutting_down {
            let k: usize = (b - KEY_ONE) as usize;
            actions = self.choose_entry(d, k);
        }
        assert(self@ == step::chosen_step(old(self)@, d, b).mux);
        let ghost asked = actions@;
        let (flow, mut more, Ghost(rest)) = self.replay_waiting(source, 1);
        let ghost added = more@;
        actions.append(&mut more);
        assert(seqs::views(actions@) =~= seqs::views(asked) + seqs::views(added));
        (flow, actions, Ghost(rest))
    }

    /// Handles one event. The readings that were made come with the result.
    fn handle_read(&mut self, event: Event, source: &Flags) -> (r: (
        LoopAction,
        Vec<Action>,
        Ghost<Seq<bool>>,
    ))
        requires
            step::no_key_waits(old(self)@),
            old(self).shutting_down || source.can_be_set() ==> step::exits_have_room(
                old(self)@,
                event@,
            ),
            !old(self).shutting_down && (*source matches Flags::Given(given) ==> !step::flag_at(
                given@,
                0,
            )) ==> step::generation_has_room(old(self)@, event@),
        ensures
            final(self)@ == step::step(old(self)@, event@, r.2@).mux,
            r.0 == step::step(old(self)@, event@, r.2@).flow,
            seqs::views(r.1@) == step::step(old(self)@, event@, r.2@).actions,
            step::no_key_waits(final(self)@),
            r.2@.len() == 1 + old(self)@.buffered.len(),
            source.can_give(0, r.2@),
    {
        let ghost before = self@;
        let flag = source.read(0);
        if !self.shutting_down && flag {
            self.shutting_down = true;
        }
        let ghost now = self@;
        let ghost all = unread(*source, 0, seq![flag], 1 + before.buffered.len() as int);
        assert(all[0] == flag);
        let d = match self.dialog {
            Some(d) => d,
            None => {
                let (flow, actions) = self.handle_plain(event);
                return (flow, actions, Ghost(all));
            },
        };
        let none: Vec<Action> = Vec::new();
        assert(seqs::views(none@) =~= Seq::empty());
        match event {
            Event::Keypress(b) => {
                let (flow, asked, Ghost(rest)) = self.close_with_key(d, b, source);
                let ghost flags = seq![flag] + rest;
                proof {
                    assert(step::later(flags) =~= rest);
                    assert forall|i: int| 0 <= i < flags.len() && *source is Given implies
                        #[trigger] flags[i] == step::flag_at(source->Given_0@, 0 + i) by {
                        if i > 0 {
                            assert(rest[i - 1] == step::flag_at(source->Given_0@, 1 + (i - 1)));
                        }
                    }
                }
                return (flow, asked, Ghost(flags));
            },
            other => {
                let ghost waiting = self.buffered_events@;
                self.buffered_events.push(other);
                proof {
                    seqs::lemma_views_push(waiting, other);
                }
                (LoopAction::Continue, none, Ghost(all))
            },
        }
    }
}

/// Readings that agree lead to the same.
proof fn lemma_step_agrees(m: MuxModel, e: EventModel, f: Seq<bool>, g: Seq<bool>)
    requires
        f.len() == 1 + m.buffered.len(),
        forall|i: int| 0 <= i < f.len() ==> #[trigger] f[i] == step::flag_at(g, 0 + i),
    ensures
        step::step(m, e, f) == step::step(m, e, g),
{
    assert(f[0] == step::flag_at(g, 0));
    let now = step::noted(m, step::flag_at(f, 0));
    if let (Some(d), EventModel::Keypress(b)) = (m.dialog, e) {
        let n = m.buffered.len() as int;
        assert forall|i: int| 0 <= i < n implies #[trigger] step::flag_at(step::later(f), i)
            == step::flag_at(step::later(g), i) by {
            assert(f[i + 1] == step::flag_at(g, 0 + (i + 1)));
        }
        step::lemma_readings_agree(
            step::closed(step::chosen_step(now, d, b).mux),
            m.buffered,
            step::later(f),
            step::later(g),
            n,
        );
    }
}

} // verus!
