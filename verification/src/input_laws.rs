//! What holds of what comes in: the configuration file, the keyboard, and the children.
use vstd::prelude::*;

use crate::config;
use crate::config::{Config, ConfigModel, ScriptConfig, UrlConfig};
use crate::display;
use crate::laws;
use crate::mux;
use crate::process;
use crate::process::{
    ChangeKind, ConfigWatch, Event, EventModel, KeyCode, OutputLine, OutputModel, Reaction,
    ReactionModel, TerminalInput,
};
use crate::screen;
use crate::script;
use crate::script::{Action, ActionModel};
use crate::seqs;
use crate::supervise;
use crate::supervise::{Effect, EffectModel, Report, ReportModel};
use crate::terminal;

verus! {

// ---------------------------------------------------------------------------
// The configuration file
// ---------------------------------------------------------------------------

/// Two entries of the configuration have the same name, the second of them at `k`.
pub open spec fn comes_again(c: ConfigModel, k: int) -> bool {
    &&& 0 <= k < c.scripts.len()
    &&& exists|j: int| 0 <= j < k && (#[trigger] c.scripts[j]).name == c.scripts[k].name
}

proof fn lemma_first_again(c: ConfigModel, from: int)
    requires
        0 <= from,
    ensures
        match config::first_repeat_from(config::names(c.scripts), from) {
            Some(k) => from <= k && comes_again(c, k) && forall|i: int|
                from <= i < k ==> !#[trigger] comes_again(c, i),
            None => forall|i: int| from <= i ==> !#[trigger] comes_again(c, i),
        },
    decreases c.scripts.len() - from,
{
    let all = config::names(c.scripts);
    if from < c.scripts.len() {
        if config::repeats(all, from) {
            let j = choose|j: int| 0 <= j < from && #[trigger] all[j] == all[from];
            assert(c.scripts[j].name == c.scripts[from].name);
        } else {
            if comes_again(c, from) {
                let j = choose|j: int|
                    0 <= j < from && (#[trigger] c.scripts[j]).name == c.scripts[from].name;
                assert(all[j] == all[from]);
            }
            lemma_first_again(c, from + 1);
        }
    }
}

/// A configuration without a script is refused.
pub proof fn a_configuration_needs_a_script(c: ConfigModel)
    requires
        c.scripts.len() == 0,
    ensures
        config::parse_model(Ok(c)) == Err::<ConfigModel, Seq<char>>(
            "at least one [[scripts]] entry is required"@,
        ),
{
}

/// A configuration in which a name comes again is refused for the first that does, by that name.
pub proof fn a_name_must_not_come_again(c: ConfigModel, k: int)
    requires
        comes_again(c, k),
        forall|i: int| 0 <= i < k ==> !#[trigger] comes_again(c, i),
    ensures
        config::parse_model(Ok(c)) == Err::<ConfigModel, Seq<char>>(
            "duplicate script name: "@ + c.scripts[k].name,
        ),
{
    lemma_first_again(c, 0);
    let found = config::first_repeat_from(config::names(c.scripts), 0);
    assert(found is Some);
    if found->0 < k {
        assert(comes_again(c, found->0));
    }
}

/// Any other configuration is accepted, just as it is.
pub proof fn any_other_configuration_is_accepted(c: ConfigModel)
    requires
        c.scripts.len() > 0,
        forall|i: int, j: int|
            0 <= i < j < c.scripts.len() ==> (#[trigger] c.scripts[i]).name != (
            #[trigger] c.scripts[j]).name,
    ensures
        config::parse_model(Ok(c)) == Ok::<ConfigModel, Seq<char>>(c),
{
    lemma_first_again(c, 0);
    if let Some(k) = config::first_repeat_from(config::names(c.scripts), 0) {
        assert(comes_again(c, k));
    }
}

/// What the main loop is told when the file at `path` is loaded again.
pub open spec fn told_of(
    path: Seq<char>,
    file: Result<Result<ConfigModel, Seq<char>>, Seq<char>>,
) -> EventModel {
    process::reload_event_model(config::load_model(path, file))
}

/// A file that cannot be read is reported with its path and the reason, and one that cannot be
/// understood with the reason.
pub proof fn an_unreadable_file_is_reported(path: Seq<char>, e: Seq<char>)
    ensures
        told_of(path, Err(e)) == EventModel::ConfigError("failed to read "@ + path + ": "@ + e),
        told_of(path, Ok(Err(e))) == EventModel::ConfigError("invalid config: "@ + e),
{
}

/// A file that was understood takes effect just as it is, or is refused with a reason, whatever
/// its path: it takes effect if it has a script and no name comes again.
pub proof fn a_readable_file_takes_effect(path: Seq<char>, c: ConfigModel)
    ensures
        c.scripts.len() > 0 && (forall|i: int| !#[trigger] comes_again(c, i)) ==> told_of(
            path,
            Ok(Ok(c)),
        ) == EventModel::ConfigReloaded(c),
        c.scripts.len() == 0 || (exists|i: int| #[trigger] comes_again(c, i)) ==> told_of(
            path,
            Ok(Ok(c)),
        ) is ConfigError,
        told_of(path, Ok(Ok(c))) is ConfigError ==> config::parse_model(Ok(c)) == Err::<
            ConfigModel,
            Seq<char>,
        >(told_of(path, Ok(Ok(c)))->ConfigError_0),
{
    lemma_first_again(c, 0);
    if exists|i: int| #[trigger] comes_again(c, i) {
        let i = choose|i: int| #[trigger] comes_again(c, i);
        assert(comes_again(c, i));
    }
}

/// A change calls for a reload if it writes or creates the file and comes half a second or more
/// after the last reload, and not otherwise. From then on the half second counts anew.
pub proof fn a_change_of_the_file_is_seen(
    watch: ConfigWatch,
    touches_config: bool,
    kind: ChangeKind,
    now_ns: u128,
)
    ensures
        !touches_config ==> !watch.calls_for_reload(touches_config, kind, now_ns),
        kind is Other ==> !watch.calls_for_reload(touches_config, kind, now_ns),
        now_ns < watch.last_reload_ns + 500_000_000 ==> !watch.calls_for_reload(
            touches_config,
            kind,
            now_ns,
        ),
        touches_config && !(kind is Other) && now_ns >= watch.last_reload_ns + 500_000_000
            ==> watch.calls_for_reload(touches_config, kind, now_ns),
        laws::watched(watch, touches_config, kind, now_ns).last_reload_ns == (
        if watch.calls_for_reload(touches_config, kind, now_ns) {
            now_ns
        } else {
            watch.last_reload_ns
        }),
{
}

// ---------------------------------------------------------------------------
// The keyboard
// ---------------------------------------------------------------------------

/// Keys that are held or released, keys without a character, and anything else that the terminal
/// says without meaning for the program, are passed over.
pub proof fn only_presses_count(code: KeyCode, control: bool)
    ensures
        process::reaction(TerminalInput::Key { press: false, code, control }) is Ignore,
        process::reaction(
            TerminalInput::Key { press: true, code: KeyCode::Other, control },
        ) is Ignore,
        process::reaction(TerminalInput::Other) is Ignore,
        process::reaction(TerminalInput::Failed) is End,
{
}

/// Control and `c` shut down. Any other character is passed on: one of a single byte as that byte,
/// and others by the lowest byte of their code. The escape key is passed on too, and so is the
/// size of the terminal.
pub proof fn what_is_typed_is_passed_on(c: char, control: bool, w: u16, h: u16)
    ensures
        process::reaction(
            TerminalInput::Key { press: true, code: KeyCode::Char('c'), control: true },
        ) == ReactionModel::Shutdown(EventModel::Keypress(0x03)),
        !(control && c == 'c') ==> {
            let r = process::reaction(
                TerminalInput::Key { press: true, code: KeyCode::Char(c), control },
            );
            &&& r matches ReactionModel::Send(EventModel::Keypress(b))
            &&& b == (c as u32) % 0x100
            &&& (c as u32) < 0x100 ==> b == c as u32
        },
        process::reaction(TerminalInput::Key { press: true, code: KeyCode::Esc, control })
            == ReactionModel::Send(EventModel::Keypress(0x1b)),
        process::reaction(TerminalInput::Resize(w, h)) == ReactionModel::Send(
            EventModel::Resize(w, h),
        ),
{
}

// ---------------------------------------------------------------------------
// The children
// ---------------------------------------------------------------------------

/// The process group of a child is its number with the sign turned round, in thirty-two bits.
pub proof fn a_group_is_the_negated_number(pid: u32)
    requires
        pid != 0x8000_0000,
    ensures
        i32::MIN < process::group_model(pid) <= i32::MAX,
        (process::group_model(pid) + pid) % 0x1_0000_0000 == 0,
        pid <= i32::MAX ==> process::group_model(pid) == -(pid as int),
{
}

/// A process that is taken off the list is no longer on it, and all others still are.
pub proof fn only_one_is_taken_off(pids: Seq<u32>, pid: u32, other: u32)
    ensures
        pids.filter(process::other_than(pid)).contains(other) <==> other != pid && pids.contains(
            other,
        ),
{
    let p = process::other_than(pid);
    let kept = pids.filter(p);
    seqs::lemma_filter_has(pids, p);
    if kept.contains(other) {
        let i = choose|i: int| 0 <= i < kept.len() && kept[i] == other;
        assert(p(kept[i]));
        assert(pids.contains(kept[i]));
    }
    if other != pid && pids.contains(other) {
        let i = choose|i: int| 0 <= i < pids.len() && pids[i] == other;
        assert(p(pids[i]));
        assert(kept.contains(pids[i]));
    }
}

// ---------------------------------------------------------------------------
// Models hold what they are models of
// ---------------------------------------------------------------------------

/// The model of an event is the same event.
pub proof fn events_are_what_they_say(e: Event)
    ensures
        e matches Event::Keypress(b) ==> e@ == EventModel::Keypress(b),
        e matches Event::Resize(w, h) ==> e@ == EventModel::Resize(w, h),
        e matches Event::ConfigReloaded(c) ==> e@ == EventModel::ConfigReloaded(c@),
        e matches Event::ConfigError(msg) ==> e@ == EventModel::ConfigError(msg@),
        e matches Event::Output(line) ==> {
            &&& line matches OutputLine::Stdout { script_name, line } ==> e@ == EventModel::Output(
                OutputModel::Stdout { script_name: script_name@, line: line@ },
            )
            &&& line matches OutputLine::Stderr { script_name, line } ==> e@ == EventModel::Output(
                OutputModel::Stderr { script_name: script_name@, line: line@ },
            )
            &&& line matches OutputLine::Exited { script_name, code, generation } ==> e@
                == EventModel::Output(
                OutputModel::Exited { script_name: script_name@, code, generation },
            )
            &&& line matches OutputLine::Restarting { script_name, generation } ==> e@
                == EventModel::Output(
                OutputModel::Restarting { script_name: script_name@, generation },
            )
            &&& line matches OutputLine::Restarted { script_name, generation } ==> e@
                == EventModel::Output(
                OutputModel::Restarted { script_name: script_name@, generation },
            )
        },
{
}

/// The model of a request is the same request.
pub proof fn requests_are_what_they_say(a: Action)
    ensures
        a matches Action::OpenUrl(url) ==> a@ == ActionModel::OpenUrl(url@),
        a is TriggerShutdown ==> a@ is TriggerShutdown,
        a matches Action::Stop { slot } ==> a@ == (ActionModel::Stop { slot: slot as nat }),
        a matches Action::Spawn { slot, name, cmd, generation } ==> a@ == (ActionModel::Spawn {
            slot: slot as nat,
            name: name@,
            cmd: cmd@,
            generation,
        }),
{
}

/// The models of a configuration and its entries hold what those do; no list of addresses is an
/// empty one.
pub proof fn configurations_are_what_they_say(c: Config, s: ScriptConfig, u: UrlConfig)
    ensures
        s@.name == s.name@ && s@.cmd == s.cmd@,
        u@.name == u.name@ && u@.url == u.url@,
        c@.scripts.len() == c.scripts@.len(),
        forall|i: int| 0 <= i < c.scripts@.len() ==> c@.scripts[i] == (#[trigger] c.scripts@[i])@,
        c.urls is None ==> c@.urls.len() == 0,
        c.urls matches Some(urls) ==> c@.urls.len() == urls@.len() && forall|i: int|
            0 <= i < urls@.len() ==> c@.urls[i] == (#[trigger] urls@[i])@,
        config::outcome(Ok(c)) == Ok::<ConfigModel, Seq<char>>(c@),
        config::file_outcome(Ok(Ok(c))) == Ok::<Result<ConfigModel, Seq<char>>, Seq<char>>(Ok(c@)),
{
}

/// The model of a message is its text.
pub proof fn messages_are_what_they_say(e: String)
    ensures
        config::outcome(Err(e)) == Err::<ConfigModel, Seq<char>>(e@),
        config::file_outcome(Err(e)) == Err::<Result<ConfigModel, Seq<char>>, Seq<char>>(e@),
        config::file_outcome(Ok(Err(e))) == Ok::<Result<ConfigModel, Seq<char>>, Seq<char>>(
            Err(e@),
        ),
{
}

/// The model of a script holds what the script does.
pub proof fn scripts_are_what_they_say(s: script::ScriptState)
    ensures
        s@.name == s.name@,
        s@.cmd == s.cmd@,
        s@.visible == s.visible,
        s@.run_state == s.run_state,
        s@.color == s.color,
        s@.slot == s.slot,
        s@.stopping == s.stopping,
        s@.generation == s.generation,
{
}

/// The model of the state holds what the state does.
pub proof fn states_are_what_they_say(m: mux::Mux)
    ensures
        m@.scripts.len() == m.scripts@.len(),
        forall|i: int| 0 <= i < m.scripts@.len() ==> m@.scripts[i] == (#[trigger] m.scripts@[i])@,
        m@.urls.len() == m.urls@.len(),
        forall|i: int| 0 <= i < m.urls@.len() ==> m@.urls[i] == (#[trigger] m.urls@[i])@,
        m@.log.len() == m.log@.len(),
        forall|i: int| 0 <= i < m.log@.len() ==> m@.log[i] == (#[trigger] m.log@[i])@,
        m@.name_width == m.name_width,
        m@.scroll_offset == m.scroll_offset,
        m@.shutting_down == m.shutting_down,
        m@.exited_count == m.exited_count,
        m@.dialog == m.dialog,
        m@.buffered.len() == m.buffered_events@.len(),
        forall|i: int|
            0 <= i < m.buffered_events@.len() ==> m@.buffered[i] == (
            #[trigger] m.buffered_events@[i])@,
{
}

/// The models of lines and of their pieces hold what those do.
pub proof fn lines_are_what_they_say(e: mux::LogEntry, l: display::Line, s: display::Span)
    ensures
        e@.script_name == e.script_name@,
        e@.formatted == e.formatted@,
        e@.always_visible == e.always_visible,
        l@.len() == l.spans@.len(),
        forall|i: int| 0 <= i < l.spans@.len() ==> l@[i] == (#[trigger] l.spans@[i])@,
        s@.content == s.content@,
        s@.style == s.style,
{
}

/// The models of what the screen is given hold what that does.
pub proof fn pictures_are_what_they_say(
    a: terminal::AppState,
    v: terminal::ScriptView,
    d: terminal::DialogState,
    ink: screen::Ink,
    line: screen::InkLine,
)
    ensures
        v@.name == v.name@,
        v@.visible == v.visible,
        v@.run_state == *v.run_state,
        d@.title == d.title@,
        d@.help_text == d.help_text@,
        d@.entries.len() == d.entries@.len(),
        forall|i: int|
            0 <= i < d.entries@.len() ==> d@.entries[i].0 == (#[trigger] d.entries@[i]).0@
                && d@.entries[i].1 == d.entries@[i].1@,
        a@.log_lines.len() == a.log_lines@.len(),
        forall|i: int|
            0 <= i < a.log_lines@.len() ==> a@.log_lines[i] == (#[trigger] a.log_lines@[i])@,
        a@.scripts.len() == a.scripts@.len(),
        forall|i: int|
            0 <= i < a.scripts@.len() ==> a@.scripts[i] == (#[trigger] a.scripts@[i])@,
        a.dialog is None ==> a@.dialog is None,
        a.dialog matches Some(open) ==> a@.dialog == Some(open@),
        a@.scroll_offset == a.scroll_offset,
        ink@.text == ink.text@,
        ink@.color == ink.color@,
        ink@.modifiers == ink.modifiers,
        line@.len() == line.pieces@.len(),
        forall|i: int| 0 <= i < line.pieces@.len() ==> line@[i] == (#[trigger] line.pieces@[i])@,
{
}

/// The models of what a supervisor is told and does, and of what the reader of the keyboard does,
/// hold what those do.
pub proof fn turns_are_what_they_say(r: Report, e: Effect, k: Reaction, s: supervise::Supervisor)
    ensures
        r matches Report::Flags { shutdown, stop } ==> r@ == (ReportModel::Flags {
            shutdown,
            stop,
        }),
        r matches Report::Launched(pid) ==> r@ == ReportModel::Launched(pid),
        r matches Report::LaunchFailed(why) ==> r@ == ReportModel::LaunchFailed(why@),
        r matches Report::ChildExited(code) ==> r@ == ReportModel::ChildExited(code),
        e matches Effect::Send(line) ==> e@ == EffectModel::Send(line@),
        e matches Effect::Register(pid) ==> e@ == EffectModel::Register(pid),
        e matches Effect::Unregister(pid) ==> e@ == EffectModel::Unregister(pid),
        k is Ignore ==> k@ is Ignore,
        k matches Reaction::Send(event) ==> k@ == ReactionModel::Send(event@),
        k matches Reaction::Shutdown(event) ==> k@ == ReactionModel::Shutdown(event@),
        k is End ==> k@ is End,
        s@.name == s.name@,
        s@.generation == s.generation,
        s@.phase == s.phase,
{
}

} // verus!
