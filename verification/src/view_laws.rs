//! What holds of the picture.
use vstd::prelude::*;

use crate::config::ConfigModel;
use crate::display;
use crate::display::{Color, SpanModel};
use crate::draw;
use crate::event_laws;
use crate::laws;
use crate::process::{EventModel, OutputModel};
use crate::script;
use crate::script::ScriptModel;
use crate::seqs;
use crate::step;
use crate::step::{Dialog, LogModel, MuxModel};
use crate::terminal;
use crate::terminal::{RunState, ScriptViewModel};
use crate::text;
use crate::text_laws;

verus! {

// ---------------------------------------------------------------------------
// Which lines show
// ---------------------------------------------------------------------------

/// The first script of this name is there, and its output is shown.
pub open spec fn output_is_on(scripts: Seq<ScriptModel>, name: Seq<char>) -> bool {
    exists|k: int| #[trigger] event_laws::is_first(scripts, name, k) && scripts[k].visible
}

/// A line shows if it always does, or if the output of the first script of its name is shown, and
/// not otherwise.
pub proof fn what_shows(scripts: Seq<ScriptModel>, e: LogModel)
    ensures
        draw::shown(scripts)(e) <==> e.always_visible || output_is_on(scripts, e.script_name),
{
    event_laws::lemma_first_named(scripts, e.script_name);
}

/// The lines that show are those of the log, in their order: one more line in the log is one more
/// that shows, at the end, if it shows, and changes nothing if it does not.
pub proof fn lines_show_in_their_order(m: MuxModel, e: LogModel)
    ensures
        m.log.len() == 0 ==> draw::shown_log(m).len() == 0,
        draw::shown_log(MuxModel { log: m.log.push(e), ..m }) == (if e.always_visible
            || output_is_on(m.scripts, e.script_name) {
            draw::shown_log(m).push(e)
        } else {
            draw::shown_log(m)
        }),
{
    what_shows(m.scripts, e);
    reveal(Seq::filter);
    assert(m.log.push(e).drop_last() =~= m.log);
}

/// The scripts have the same names, and the output of the same ones is shown.
pub open spec fn shown_alike(a: Seq<ScriptModel>, b: Seq<ScriptModel>) -> bool {
    &&& a.len() == b.len()
    &&& forall|i: int| 0 <= i < a.len() ==> (#[trigger] a[i]).name == b[i].name
    &&& forall|i: int| 0 <= i < a.len() ==> (#[trigger] a[i]).visible == b[i].visible
}

/// Which lines show goes by the names of the scripts and by whether their output is shown, and by
/// nothing else of them: not by how they are doing.
pub proof fn only_names_and_switches_count(a: MuxModel, b: MuxModel)
    requires
        shown_alike(a.scripts, b.scripts),
        a.log == b.log,
    ensures
        draw::shown_log(a) == draw::shown_log(b),
        forall|e: LogModel| #[trigger] draw::shown(a.scripts)(e) == draw::shown(b.scripts)(e),
{
    assert forall|e: LogModel| #[trigger]
        draw::shown(a.scripts)(e) == draw::shown(b.scripts)(e) by {
        what_shows(a.scripts, e);
        what_shows(b.scripts, e);
        let name = e.script_name;
        if output_is_on(a.scripts, name) {
            let k = choose|k: int| #[trigger]
                event_laws::is_first(a.scripts, name, k) && a.scripts[k].visible;
            assert forall|j: int| 0 <= j < k implies (#[trigger] b.scripts[j]).name != name by {
                assert(a.scripts[j].name != name);
            }
            assert(a.scripts[k].name == b.scripts[k].name);
            assert(event_laws::is_first(b.scripts, name, k));
        }
        if output_is_on(b.scripts, name) {
            let k = choose|k: int| #[trigger]
                event_laws::is_first(b.scripts, name, k) && b.scripts[k].visible;
            assert forall|j: int| 0 <= j < k implies (#[trigger] a.scripts[j]).name != name by {
                assert(b.scripts[j].name != name);
            }
            assert(a.scripts[k].name == b.scripts[k].name);
            assert(event_laws::is_first(a.scripts, name, k));
        }
    }
    seqs::lemma_filter_agree(a.log, draw::shown(a.scripts), draw::shown(b.scripts));
}

/// One more line in a log that is not full adds it to what shows, if it shows.
proof fn lemma_shown_after(m: MuxModel, after: MuxModel)
    requires
        shown_alike(m.scripts, after.scripts),
        event_laws::grew_by(m.log, after.log, after.log.last()),
        m.log.len() < 100_000,
    ensures
        draw::shown_log(after) == (if after.log.last().always_visible || output_is_on(
            m.scripts,
            after.log.last().script_name,
        ) {
            draw::shown_log(m).push(after.log.last())
        } else {
            draw::shown_log(m)
        }),
{
    let e = after.log.last();
    assert(after.log =~= m.log.push(e));
    let longer = MuxModel { log: m.log.push(e), ..m };
    only_names_and_switches_count(longer, after);
    lines_show_in_their_order(m, e);
}

/// The last line of the log shows last, if it shows.
proof fn lemma_last_shows(m: MuxModel)
    requires
        m.log.len() > 0,
        m.log.last().always_visible || output_is_on(m.scripts, m.log.last().script_name),
    ensures
        draw::shown_log(m).len() > 0,
        draw::shown_log(m).last() == m.log.last(),
{
    what_shows(m.scripts, m.log.last());
    reveal(Seq::filter);
}

/// An exit after which the script is still there hides nothing: what showed goes on showing, and
/// the report on the exit shows after it.
pub proof fn an_exit_hides_nothing(
    m: MuxModel,
    name: Seq<char>,
    code: Option<i32>,
    generation: u64,
    k: int,
    flags: Seq<bool>,
)
    requires
        m.dialog is None,
        m.log.len() < 100_000,
        event_laws::is_first(m.scripts, name, k),
        !m.scripts[k].stopping,
    ensures
        ({
            let e = event_laws::exit_of(name, code, generation);
            let after = step::step(m, e, flags).mux;
            draw::shown_log(after) == draw::shown_log(m).push(after.log.last())
        }),
{
    event_laws::an_exit_is_noted(m, name, code, generation, k, flags);
    let after = step::step(m, event_laws::exit_of(name, code, generation), flags).mux;
    assert(shown_alike(m.scripts, after.scripts));
    lemma_shown_after(m, after);
}

/// Output of a script shows, after all that showed before, if and only if the output of the
/// script is shown.
pub proof fn output_shows_if_it_is_on(
    m: MuxModel,
    name: Seq<char>,
    line: Seq<char>,
    is_stderr: bool,
    k: int,
    flags: Seq<bool>,
)
    requires
        m.dialog is None,
        m.log.len() < 100_000,
        event_laws::is_first(m.scripts, name, k),
    ensures
        ({
            let after = step::step(m, event_laws::output(name, line, is_stderr), flags).mux;
            draw::shown_log(after) == (if m.scripts[k].visible {
                draw::shown_log(m).push(after.log.last())
            } else {
                draw::shown_log(m)
            })
        }),
{
    event_laws::output_is_logged(m, name, line, is_stderr, k, flags);
    let after = step::step(m, event_laws::output(name, line, is_stderr), flags).mux;
    lemma_shown_after(m, after);
    event_laws::lemma_first_named(m.scripts, name);
    if output_is_on(m.scripts, name) {
        let j = choose|j: int| #[trigger]
            event_laws::is_first(m.scripts, name, j) && m.scripts[j].visible;
        assert(j == k);
    }
}

/// Exits, restarts and notices on the configuration show, whatever the scripts and whether their
/// output is shown: each is the last line that shows.
pub proof fn notices_always_show(
    m: MuxModel,
    msg: Seq<char>,
    c: ConfigModel,
    flags: Seq<bool>,
)
    requires
        m.dialog is None,
    ensures
        ({
            let refused = draw::shown_log(step::step(m, EventModel::ConfigError(msg), flags).mux);
            &&& refused.len() > 0
            &&& text_laws::is_notice(
                refused.last().formatted,
                "config error: "@ + msg,
                Some(Color::Red),
            )
        }),
        !event_laws::seen(m, flags).shutting_down ==> {
            let taken = draw::shown_log(step::step(m, EventModel::ConfigReloaded(c), flags).mux);
            &&& taken.len() > 0
            &&& text_laws::is_notice(
                taken.last().formatted,
                "--- config reloaded ---"@,
                None,
            )
        },
{
    event_laws::a_refusal_is_reported(m, msg, flags);
    lemma_last_shows(step::step(m, EventModel::ConfigError(msg), flags).mux);
    if !event_laws::seen(m, flags).shutting_down {
        event_laws::a_reload_takes_over(m, c, flags);
        lemma_last_shows(step::step(m, EventModel::ConfigReloaded(c), flags).mux);
    }
}

/// The report on an exit shows last, even where the script goes with it or its output is hidden.
pub proof fn exits_always_show(
    m: MuxModel,
    name: Seq<char>,
    code: Option<i32>,
    generation: u64,
    k: int,
    flags: Seq<bool>,
)
    requires
        m.dialog is None,
        event_laws::is_first(m.scripts, name, k),
    ensures
        ({
            let e = event_laws::exit_of(name, code, generation);
            let lines = draw::shown_log(step::step(m, e, flags).mux);
            &&& lines.len() > 0
            &&& lines.last().script_name == name
            &&& text_laws::tells_exit(lines.last().formatted[2].content, code)
        }),
{
    event_laws::an_exit_is_noted(m, name, code, generation, k, flags);
    lemma_last_shows(step::step(m, event_laws::exit_of(name, code, generation), flags).mux);
}

/// The report on a restart shows last, even where the output of the script is hidden.
pub proof fn restarts_always_show(
    m: MuxModel,
    name: Seq<char>,
    generation: u64,
    k: int,
    flags: Seq<bool>,
)
    requires
        m.dialog is None,
        event_laws::is_first_of(m.scripts, name, generation, k),
    ensures
        ({
            let e = EventModel::Output(OutputModel::Restarted { script_name: name, generation });
            let lines = draw::shown_log(step::step(m, e, flags).mux);
            &&& lines.len() > 0
            &&& lines.last().script_name == name
            &&& lines.last().formatted[2].content == "restarting..."@
        }),
{
    event_laws::a_restart_is_noted(m, name, generation, k, flags);
    let e = EventModel::Output(OutputModel::Restarted { script_name: name, generation });
    lemma_last_shows(step::step(m, e, flags).mux);
}

/// A digit, with no dialog open, hides and shows the lines of the script at its position, and
/// touches those of no other name. Lines that always show go on showing.
pub proof fn a_digit_hides_and_shows(m: MuxModel, b: u8, e: LogModel, flags: Seq<bool>)
    requires
        m.dialog is None,
        !event_laws::seen(m, flags).shutting_down,
        0x31 <= b <= 0x39,
        b - 0x31 < m.scripts.len(),
    ensures
        ({
            let k = b - 0x31;
            let after = step::step(m, EventModel::Keypress(b), flags).mux;
            let before_shows = draw::shown(m.scripts)(e);
            let after_shows = draw::shown(after.scripts)(e);
            &&& e.always_visible ==> after_shows
            &&& after.log == m.log
            &&& if !e.always_visible && event_laws::is_first(m.scripts, e.script_name, k) {
                before_shows != after_shows
            } else {
                before_shows == after_shows
            }
        }),
{
    event_laws::what_the_keys_do(m, b, flags);
    let k = b - 0x31;
    let name = e.script_name;
    let after = step::step(m, EventModel::Keypress(b), flags).mux;
    what_shows(m.scripts, e);
    what_shows(after.scripts, e);
    event_laws::lemma_first_named(m.scripts, name);
    event_laws::lemma_first_named(after.scripts, name);
    assert forall|j: int| event_laws::is_first(m.scripts, name, j) == event_laws::is_first(
        after.scripts,
        name,
        j,
    ) by {
        assert forall|i: int| 0 <= i < m.scripts.len() implies (#[trigger] m.scripts[i]).name
            == after.scripts[i].name by {}
    }
    if let Some(f) = seqs::first_where(m.scripts, script::named(name)) {
        assert(event_laws::is_first(m.scripts, name, f));
        assert(event_laws::is_first(after.scripts, name, f));
        assert(output_is_on(m.scripts, name) == m.scripts[f].visible);
        assert(output_is_on(after.scripts, name) == after.scripts[f].visible);
        if f != k {
            assert(!event_laws::is_first(m.scripts, name, k));
        }
    } else {
        assert(!output_is_on(m.scripts, name));
        assert(!output_is_on(after.scripts, name));
    }
}

// ---------------------------------------------------------------------------
// The part of the log that is drawn
// ---------------------------------------------------------------------------

/// What is drawn of the lines that show is a row of neighbours: from the line on that the log is
/// scrolled to, or from further up where that brings the last line to the last row.
pub proof fn the_window_is_where_it_is_scrolled_to(m: MuxModel, height: int)
    requires
        0 <= height,
    ensures
        ({
            let all = draw::shown_log(m);
            let drawn = draw::window(m, height);
            let spare = all.len() - height;
            let from = if spare <= 0 {
                0
            } else if m.scroll_offset < spare {
                m.scroll_offset as int
            } else {
                spare
            };
            &&& drawn.len() == (if all.len() < height {
                all.len() as int
            } else {
                height
            })
            &&& forall|i: int| 0 <= i < drawn.len() ==> #[trigger] drawn[i] == all[from + i]
        }),
{
}

/// A script in the status bar is shown with its own name, switch and state.
pub open spec fn is_view_of(v: ScriptViewModel, s: ScriptModel) -> bool {
    v.name == s.name && v.visible == s.visible && v.run_state == s.run_state
}

/// The picture has the lines that the window has, above one row for the status bar, and each as
/// it was logged; every script, in order and as it is; and a dialog exactly while one is open.
pub proof fn the_picture_shows_the_state(m: MuxModel, term_height: int)
    requires
        0 <= term_height,
    ensures
        ({
            let p = draw::picture(m, term_height);
            let lines = draw::window(
                m,
                if term_height == 0 {
                    0
                } else {
                    term_height - 1
                },
            );
            &&& p.log_lines.len() == lines.len()
            &&& forall|i: int|
                0 <= i < lines.len() ==> #[trigger] p.log_lines[i] == lines[i].formatted
            &&& p.scripts.len() == m.scripts.len()
            &&& forall|i: int|
                0 <= i < m.scripts.len() ==> is_view_of(#[trigger] p.scripts[i], m.scripts[i])
            &&& p.dialog is Some <==> m.dialog is Some
            &&& m.dialog matches Some(d) ==> p.dialog == Some(draw::dialog_model(m, d))
            &&& p.scroll_offset == 0
        }),
{
}

/// On a terminal with a row for it, and with the log scrolled to its end, a line that was logged
/// last and shows stands in the last row of the log, as it was logged.
pub proof fn the_newest_line_is_drawn(m: MuxModel, term_height: int)
    requires
        term_height >= 2,
        m.scroll_offset == usize::MAX,
        m.log.len() <= 100_000,
        m.log.len() > 0,
        m.log.last().always_visible || output_is_on(m.scripts, m.log.last().script_name),
    ensures
        draw::picture(m, term_height).log_lines.len() > 0,
        draw::picture(m, term_height).log_lines.last() == m.log.last().formatted,
{
    lemma_last_shows(m);
    laws::the_end_of_the_log_shows(m, term_height - 1);
    let drawn = draw::window(m, term_height - 1);
    assert(drawn.last() == draw::shown_log(m).last());
}

// ---------------------------------------------------------------------------
// What a dialog offers
// ---------------------------------------------------------------------------

/// The dialog for addresses offers every address, in order, under its name.
pub proof fn every_address_is_offered(m: MuxModel)
    ensures
        ({
            let d = draw::dialog_model(m, Dialog::Urls);
            &&& d.title == "Open URL"@
            &&& d.help_text == "Press 1-9 to open, Esc to cancel"@
            &&& d.entries.len() == m.urls.len()
            &&& forall|i: int|
                0 <= i < m.urls.len() ==> (#[trigger] d.entries[i]).0 == m.urls[i].name
                    && d.entries[i].1 == m.urls[i].url
        }),
{
}

/// The words say how a script is doing.
pub open spec fn tells_state(words: Seq<char>, state: RunState) -> bool {
    match state {
        RunState::Running => words == "running"@,
        RunState::Exited(Some(code)) => words == "exited ("@ + text::decimal(code as int) + ")"@,
        RunState::Exited(None) => words == "exited (signal)"@,
        RunState::Restarting => words == "restarting"@,
    }
}

proof fn lemma_state_words(state: RunState)
    ensures
        tells_state(draw::state_words(state), state),
{
    reveal_strlit("exited (");
    reveal_strlit("signal");
    reveal_strlit(")");
    reveal_strlit("exited (signal)");
    assert("exited ("@ + "signal"@ + ")"@ =~= "exited (signal)"@);
}

/// The dialog for restarts offers the scripts that were not told to stop, and no others, in
/// order: one more script at the end is one more entry, with its name and how it is doing, unless
/// it is stopping.
pub proof fn live_scripts_are_offered(m: MuxModel, s: ScriptModel)
    ensures
        ({
            let d = draw::dialog_model(m, Dialog::Restart);
            let more = draw::dialog_model(
                MuxModel { scripts: m.scripts.push(s), ..m },
                Dialog::Restart,
            );
            &&& d.title == "Restart Script"@
            &&& d.help_text == "Press 1-9 to restart, Esc to cancel"@
            &&& m.scripts.len() == 0 ==> d.entries.len() == 0
            &&& s.stopping ==> more.entries == d.entries
            &&& !s.stopping ==> {
                &&& more.entries.len() == d.entries.len() + 1
                &&& more.entries.drop_last() == d.entries
                &&& more.entries.last().0 == s.name
                &&& tells_state(more.entries.last().1, s.run_state)
            }
        }),
{
    reveal(Seq::filter);
    lemma_state_words(s.run_state);
    let longer = m.scripts.push(s);
    assert(longer.drop_last() =~= m.scripts);
    let before = draw::restart_entries(m.scripts);
    let after = draw::restart_entries(longer);
    if !s.stopping {
        assert(longer.filter(draw::live()) =~= m.scripts.filter(draw::live()).push(s));
        assert(after.drop_last() =~= before);
    } else {
        assert(after =~= before);
    }
}

// ---------------------------------------------------------------------------
// The status bar
// ---------------------------------------------------------------------------

/// The text after a script's name in the status bar says how it is doing, and nothing of one that
/// runs.
pub open spec fn tells_suffix(t: Seq<char>, state: RunState) -> bool {
    match state {
        RunState::Running => t.len() == 0,
        RunState::Exited(Some(code)) => t == " exit:"@ + text::decimal(code as int),
        RunState::Exited(None) => t == " exit:sig"@,
        RunState::Restarting => t == " restarting"@,
    }
}

/// The three pieces are the status of the script at position `i`: its number, name and state,
/// whether its output is shown, in bold if it is and dimmed if not, and a bracket, all in the
/// colour of the position.
pub open spec fn is_status(
    a: SpanModel,
    b: SpanModel,
    c: SpanModel,
    i: int,
    s: ScriptViewModel,
) -> bool {
    let color = Some(display::palette(i));
    let head = " ["@ + text::decimal(i + 1) + ":"@ + s.name;
    &&& a.content.len() > head.len()
    &&& a.content.take(head.len() as int) == head
    &&& a.content.last() == ' '
    &&& tells_suffix(a.content.subrange(head.len() as int, a.content.len() - 1), s.run_state)
    &&& text_laws::has_style(a.style, color, false, false)
    &&& b.content == (if s.visible {
        "ON"@
    } else {
        "off"@
    })
    &&& text_laws::has_style(b.style, color, s.visible, !s.visible)
    &&& c.content == "] "@
    &&& text_laws::has_style(c.style, color, false, false)
}

proof fn lemma_status_of(i: int, s: ScriptViewModel)
    ensures
        ({
            let p = terminal::status_of(i, s);
            p.len() == 3 && is_status(p[0], p[1], p[2], i, s)
        }),
{
    let head = " ["@ + text::decimal(i + 1) + ":"@ + s.name;
    let t = terminal::status_of(i, s)[0].content;
    let suffix = terminal::state_suffix(s.run_state);
    reveal_strlit(" ");
    reveal_strlit(" exit:");
    reveal_strlit("sig");
    reveal_strlit(" exit:sig");
    assert(" exit:"@ + "sig"@ =~= " exit:sig"@);
    assert(t =~= head + suffix + seq![' ']);
    assert(t.take(head.len() as int) =~= head);
    assert(t.subrange(head.len() as int, t.len() - 1) =~= suffix);
}

/// The status bar has three pieces for every script, in order, that say its number, name and
/// state and whether its output is shown.
pub proof fn the_status_bar_shows_every_script(scripts: Seq<ScriptViewModel>)
    ensures
        ({
            let p = terminal::status_spans(scripts);
            &&& p.len() == 3 * scripts.len()
            &&& forall|i: int|
                0 <= i < scripts.len() ==> is_status(
                    p[3 * i],
                    p[3 * i + 1],
                    p[3 * i + 2],
                    i,
                    #[trigger] scripts[i],
                )
        }),
    decreases scripts.len(),
{
    if scripts.len() > 0 {
        let rest = scripts.drop_last();
        the_status_bar_shows_every_script(rest);
        let p = terminal::status_spans(scripts);
        let q = terminal::status_spans(rest);
        lemma_status_of(scripts.len() - 1, scripts.last());
        assert forall|i: int| 0 <= i < scripts.len() implies is_status(
            p[3 * i],
            p[3 * i + 1],
            p[3 * i + 2],
            i,
            #[trigger] scripts[i],
        ) by {
            if i < rest.len() {
                assert(rest[i] == scripts[i]);
                assert(p[3 * i] == q[3 * i]);
                assert(p[3 * i + 1] == q[3 * i + 1]);
                assert(p[3 * i + 2] == q[3 * i + 2]);
            }
        }
    }
}

} // verus!
