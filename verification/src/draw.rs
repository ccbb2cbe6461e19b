//! The picture of the state: which lines of the log show, and what a dialog offers.
use ratatui::Frame;
use vstd::prelude::*;

use crate::config::UrlModel;
use crate::display::{Line, SpanModel};
use crate::mux::{LogEntry, Mux};
use crate::screen;
use crate::script;
use crate::script::{find_named, ScriptModel, ScriptState};
use crate::seqs;
use crate::step::{Dialog, LogModel, MuxModel};
use crate::terminal;
use crate::terminal::{
    first_line, render_if_it_fits, AppModel, AppState, DialogModel, DialogState, RunState,
    ScriptView, ScriptViewModel,
};
use crate::text;
use crate::text::{code_text, joined};

verus! {

/// A script as the status bar shows it.
pub open spec fn view_of(s: ScriptModel) -> ScriptViewModel {
    ScriptViewModel { name: s.name, visible: s.visible, run_state: s.run_state }
}

/// The scripts as the status bar shows them.
pub open spec fn views_of(scripts: Seq<ScriptModel>) -> Seq<ScriptViewModel> {
    scripts.map_values(|s: ScriptModel| view_of(s))
}

/// Lines of the log that show: those that always do, and the output of scripts whose output is
/// shown. Where several scripts have the name, the first counts.
pub open spec fn shown(scripts: Seq<ScriptModel>) -> spec_fn(LogModel) -> bool {
    |e: LogModel|
        e.always_visible || match seqs::first_where(scripts, script::named(e.script_name)) {
            Some(k) => scripts[k].visible,
            None => false,
        }
}

/// The lines of the log that show.
pub open spec fn shown_log(m: MuxModel) -> Seq<LogModel> {
    m.log.filter(shown(m.scripts))
}

/// The part of the lines that show for which there is room in `height` rows: from the line on
/// that the log is scrolled to, or so that the last line is the last row.
pub open spec fn window(m: MuxModel, height: int) -> Seq<LogModel> {
    let all = shown_log(m);
    let start = terminal::first_shown(all.len() as int, height, m.scroll_offset as int);
    all.subrange(start, seqs::least(start + height, all.len() as int))
}

/// What is drawn of lines of the log.
pub open spec fn texts(lines: Seq<LogModel>) -> Seq<Seq<SpanModel>> {
    lines.map_values(|e: LogModel| e.formatted)
}

/// How a script is doing, in words.
pub open spec fn state_words(state: RunState) -> Seq<char> {
    match state {
        RunState::Running => "running"@,
        RunState::Exited(Some(code)) => "exited ("@ + text::decimal(code as int) + ")"@,
        RunState::Exited(None) => "exited ("@ + "signal"@ + ")"@,
        RunState::Restarting => "restarting"@,
    }
}

/// Scripts that were not told to stop.
pub open spec fn live() -> spec_fn(ScriptModel) -> bool {
    |s: ScriptModel| !s.stopping
}

/// What the dialog for addresses offers.
pub open spec fn url_entries(urls: Seq<UrlModel>) -> Seq<(Seq<char>, Seq<char>)> {
    urls.map_values(|u: UrlModel| (u.name, u.url))
}

/// What the dialog for restarts offers: the scripts that were not told to stop, and how they are
/// doing.
pub open spec fn restart_entries(scripts: Seq<ScriptModel>) -> Seq<(Seq<char>, Seq<char>)> {
    scripts.filter(live()).map_values(|s: ScriptModel| (s.name, state_words(s.run_state)))
}

/// What a dialog shows.
pub open spec fn dialog_model(m: MuxModel, d: Dialog) -> DialogModel {
    match d {
        Dialog::Urls => DialogModel {
            title: "Open URL"@,
            entries: url_entries(m.urls),
            help_text: "Press 1-9 to open, Esc to cancel"@,
        },
        Dialog::Restart => DialogModel {
            title: "Restart Script"@,
            entries: restart_entries(m.scripts),
            help_text: "Press 1-9 to restart, Esc to cancel"@,
        },
    }
}

/// The picture of the state on a terminal of this height, whose last row is the status bar's.
pub open spec fn picture(m: MuxModel, term_height: int) -> AppModel {
    AppModel {
        log_lines: texts(window(m, seqs::monus(term_height, 1))),
        scripts: views_of(m.scripts),
        dialog: match m.dialog {
            Some(d) => Some(dialog_model(m, d)),
            None => None,
        },
        scroll_offset: 0,
    }
}

/// The scripts as the status bar shows them.
pub fn script_views(scripts: &[ScriptState]) -> (r: Vec<ScriptView<'_>>)
    ensures
        seqs::views(r@) == views_of(seqs::views(scripts@)),
{
    let mut views: Vec<ScriptView> = Vec::new();
    for i in 0..scripts.len()
        invariant
            views.len() == i,
            forall|j: int| 0 <= j < i ==> (#[trigger] views@[j])@ == view_of(scripts@[j]@),
    {
        let s = &scripts[i];
        views.push(
            ScriptView { name: s.name.as_str(), visible: s.visible, run_state: &s.run_state },
        );
    }
    assert(seqs::views(views@) =~= views_of(seqs::views(scripts@)));
    views
}

/// The line shows.
fn is_shown(scripts: &Vec<ScriptState>, entry: &LogEntry) -> (r: bool)
    ensures
        r == shown(seqs::views(scripts@))(entry@),
{
    if entry.always_visible {
        return true;
    }
    match find_named(scripts, &entry.script_name) {
        Some(k) => scripts[k].visible,
        None => false,
    }
}

/// The number of lines of the log that show.
pub fn count_shown(mux: &Mux) -> (r: usize)
    ensures
        r == shown_log(mux@).len(),
{
    let ghost m = mux@;
    let ghost p = shown(m.scripts);
    let mut total: usize = 0;
    assert(m.log.take(0).filter(p) =~= Seq::empty()) by {
        reveal(Seq::filter);
    }
    for i in 0..mux.log.len()
        invariant
            m == mux@,
            p == shown(m.scripts),
            total == m.log.take(i as int).filter(p).len(),
            total <= i,
    {
        proof {
            seqs::lemma_filter_take(m.log, p, i as int);
        }
        if is_shown(&mux.scripts, &mux.log[i]) {
            total = total + 1;
        }
    }
    assert(m.log.take(mux.log.len() as int) =~= m.log);
    total
}

/// The lines that are drawn of the log in `height` rows.
pub fn visible_lines(mux: &Mux, height: usize) -> (r: Vec<Line>)
    ensures
        seqs::views(r@) == texts(window(mux@, height as int)),
{
    let ghost m = mux@;
    let ghost p = shown(m.scripts);
    let ghost all = shown_log(m);
    let total: usize = count_shown(mux);
    let start: usize = first_line(total, height, mux.scroll_offset);
    let mut lines: Vec<Line> = Vec::new();
    let mut seen: usize = 0;
    assert(m.log.take(0).filter(p) =~= Seq::empty()) by {
        reveal(Seq::filter);
    }
    for i in 0..mux.log.len()
        invariant
            m == mux@,
            p == shown(m.scripts),
            seen == m.log.take(i as int).filter(p).len(),
            seen <= i,
            seqs::views(lines@) == texts(
                m.log.take(i as int).filter(p).subrange(
                    seqs::least(start as int, seen as int),
                    seqs::least(start + height, seen as int),
                ),
            ),
    {
        proof {
            seqs::lemma_filter_take(m.log, p, i as int);
        }
        let ghost before = m.log.take(i as int).filter(p);
        if is_shown(&mux.scripts, &mux.log[i]) {
            let ghost entry = m.log[i as int];
            let ghost taken = lines@;
            if seen >= start && lines.len() < height {
                lines.push(mux.log[i].formatted.clone());
                proof {
                    seqs::lemma_views_push(taken, lines@.last());
                }
                assert(texts(before.push(entry).subrange(start as int, seen + 1)) =~= texts(
                    before.subrange(start as int, seen as int),
                ).push(entry.formatted));
            }
            seen = seen + 1;
            assert(seqs::views(lines@) =~= texts(
                before.push(entry).subrange(
                    seqs::least(start as int, seen as int),
                    seqs::least(start + height, seen as int),
                ),
            ));
        }
    }
    assert(m.log.take(mux.log.len() as int) =~= m.log);
    lines
}

fn state_text(state: &RunState) -> (r: String)
    ensures
        r@ == state_words(*state),
{
    match state {
        RunState::Running => "running".to_string(),
        RunState::Exited(code) => {
            let c = match code {
                Some(c) => code_text(*c),
                None => "signal".to_string(),
            };
            joined(joined("exited (", c.as_str()).as_str(), ")")
        },
        RunState::Restarting => "restarting".to_string(),
    }
}

/// What a dialog offers: labels and details.
pub fn dialog_entries(mux: &Mux, d: Dialog) -> (r: Vec<(String, String)>)
    ensures
        terminal::entry_models(r@) == dialog_model(mux@, d).entries,
{
    let ghost m = mux@;
    let mut entries: Vec<(String, String)> = Vec::new();
    match d {
        Dialog::Urls => {
            for i in 0..mux.urls.len()
                invariant
                    m == mux@,
                    entries.len() == i,
                    forall|j: int|
                        0 <= j < i ==> (#[trigger] entries@[j]).0@ == m.urls[j].name
                            && entries@[j].1@ == m.urls[j].url,
            {
                entries.push((mux.urls[i].name.clone(), mux.urls[i].url.clone()));
            }
            assert(terminal::entry_models(entries@) =~= url_entries(m.urls));
        },
        Dialog::Restart => {
            assert(m.scripts.take(0).filter(live()) =~= Seq::empty()) by {
                reveal(Seq::filter);
            }
            assert(terminal::entry_models(entries@) =~= restart_entries(m.scripts.take(0)));
            for i in 0..mux.scripts.len()
                invariant
                    m == mux@,
                    terminal::entry_models(entries@) == restart_entries(
                        m.scripts.take(i as int),
                    ),
            {
                proof {
                    seqs::lemma_filter_take(m.scripts, live(), i as int);
                }
                let s = &mux.scripts[i];
                if !s.stopping {
                    let ghost before = entries@;
                    entries.push((s.name.clone(), state_text(&s.run_state)));
                    assert(terminal::entry_models(entries@) =~= terminal::entry_models(
                        before,
                    ).push((s@.name, state_words(s@.run_state))));
                    assert(restart_entries(m.scripts.take(i + 1)) =~= restart_entries(
                        m.scripts.take(i as int),
                    ).push((s@.name, state_words(s@.run_state))));
                }
            }
            assert(m.scripts.take(mux.scripts.len() as int) =~= m.scripts);
        },
    }
    entries
}

/// Draws the state on a terminal of this height, where that can be done, and leaves the frame as
/// it is where it cannot: true if it was drawn.
pub fn draw(frame: &mut Frame, mux: &Mux, term_height: usize) -> (r: bool)
    ensures
        screen::frame_area(*final(frame)) == screen::frame_area(*old(frame)),
        r == terminal::picture_fits(
            screen::frame_cells(*old(frame)),
            screen::frame_area(*old(frame)),
            picture(mux@, term_height as int),
        ),
        screen::frame_cells(*final(frame)) == if r {
            terminal::ui_cells(
                screen::frame_cells(*old(frame)),
                screen::frame_area(*old(frame)),
                picture(mux@, term_height as int),
            )
        } else {
            screen::frame_cells(*old(frame))
        },
{
    let views = script_views(mux.scripts.as_slice());
    let entries = match mux.dialog {
        Some(d) => dialog_entries(mux, d),
        None => Vec::new(),
    };
    let dialog = match mux.dialog {
        Some(Dialog::Urls) => Some(
            DialogState {
                title: "Open URL",
                entries: entries.as_slice(),
                help_text: "Press 1-9 to open, Esc to cancel",
            },
        ),
        Some(Dialog::Restart) => Some(
            DialogState {
                title: "Restart Script",
                entries: entries.as_slice(),
                help_text: "Press 1-9 to restart, Esc to cancel",
            },
        ),
        None => None,
    };
    let log_height: usize = if term_height > 0 {
        term_height - 1
    } else {
        0
    };
    let lines = visible_lines(mux, log_height);
    let state = AppState {
        log_lines: lines.as_slice(),
        scripts: views.as_slice(),
        dialog,
        scroll_offset: 0,
    };
    assert(state@ == picture(mux@, term_height as int));
    render_if_it_fits(frame, &state)
}

} // verus!
