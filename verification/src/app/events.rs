//! Background events: the index loader and the installer report here.

use vstd::prelude::*;
use crate::model::{LogLevel, ManagerAvailability, InstallSummary};
use crate::text::{ascii_lower, has_sub, chars_of, contains_text, to_ascii_lower, decimal, usize_text, strings_view};
use crate::indexer::IndexEvent;
use crate::installer::{InstallEvent, progress_view};
use crate::backend::owned;
use super::{App, AppModel, LogEntry, MAX_LOG_LINES, log_view, Screen};
use super::search::refresh_spec;

verus! {

/// The severity a log line is shown with, decided by words it contains
/// (case-insensitively): failures first, then warnings, then successes.
pub open spec fn classify_spec(text: Seq<char>) -> LogLevel {
    let l = ascii_lower(text);
    if has_sub(l, "fatal"@) || has_sub(l, "error"@) || has_sub(l, "failed"@) {
        LogLevel::Error
    } else if has_sub(l, "warn"@) || has_sub(l, "skip"@) || has_sub(l, "unresolved"@) || has_sub(l, "abort"@) {
        LogLevel::Warn
    } else if has_sub(l, "ok"@) || has_sub(l, "installed"@) || has_sub(l, "completed"@) {
        LogLevel::Success
    } else {
        LogLevel::Info
    }
}

pub fn classify_log_level(text: &str) -> (r: LogLevel)
    ensures
        r == classify_spec(text@),
{
    let lower = to_ascii_lower(text);
    let l = chars_of(lower.as_str());
    if contains_text(&l, "fatal") || contains_text(&l, "error") || contains_text(&l, "failed") {
        LogLevel::Error
    } else if contains_text(&l, "warn") || contains_text(&l, "skip") || contains_text(&l, "unresolved") || contains_text(&l, "abort") {
        LogLevel::Warn
    } else if contains_text(&l, "ok") || contains_text(&l, "installed") || contains_text(&l, "completed") {
        LogLevel::Success
    } else {
        LogLevel::Info
    }
}

/// Appends a classified line to the log, dropping the oldest line once the
/// log holds `MAX_LOG_LINES`.
pub open spec fn push_log_spec(m: AppModel, text: Seq<char>) -> AppModel {
    let kept = if m.logs.len() >= MAX_LOG_LINES { m.logs.drop_first() } else { m.logs };
    AppModel { logs: kept.push((classify_spec(text), text)), ..m }
}

impl App {
    pub fn push_log(&mut self, text: String)
        requires
            old(self).wf(),
        ensures
            final(self).wf(),
            final(self)@ == push_log_spec(old(self)@, text@),
    {
        let ghost m0 = self@;
        if self.logs.len() >= MAX_LOG_LINES {
            let _ = self.logs.pop_front();
            assert(log_view(self.logs@) =~= m0.logs.drop_first());
        }
        let ghost before = log_view(self.logs@);
        let level = classify_log_level(text.as_str());
        self.logs.push_back(LogEntry { level, text });
        assert(log_view(self.logs@) =~= before.push((level, text@)));
        assert(self@ =~= push_log_spec(m0, text@));
    }
}


pub open spec fn index_ready_text(n: nat, a: ManagerAvailability) -> Seq<char> {
    "Package index ready: "@ + decimal(n) + " packages ("@ + a.line_spec() + ")"@
}

/// What one event of the index loader does to the interface.
pub open spec fn apply_index_event(m: AppModel, ev: IndexEvent) -> AppModel {
    match ev {
        IndexEvent::Status(line) => push_log_spec(AppModel { status_line: line@, ..m }, "[index] "@ + line@),
        IndexEvent::Ready { packages, official_set, availability } => {
            let m1 = AppModel {
                packages: packages@,
                official: strings_view(official_set@),
                availability,
                index_ready: true,
                ..m
            };
            let st = index_ready_text(packages@.len(), availability);
            push_log_spec(AppModel { status_line: st, ..refresh_spec(m1) }, st)
        },
        IndexEvent::Error(err) => {
            let st = "Indexer error: "@ + err@;
            push_log_spec(
                AppModel { warning_line: Some("Indexer failed, browse results may be incomplete"@), status_line: st, ..m },
                st,
            )
        },
    }
}

pub open spec fn apply_index_events(m: AppModel, evs: Seq<IndexEvent>) -> AppModel
    decreases evs.len(),
{
    if evs.len() == 0 {
        m
    } else {
        apply_index_event(apply_index_events(m, evs.drop_last()), evs.last())
    }
}

pub open spec fn finished_text(s: InstallSummary) -> Seq<char> {
    "Install finished: installed="@ + decimal(s.installed as nat) + " skipped="@ + decimal(s.skipped as nat)
        + " failed="@ + decimal(s.failed as nat)
}

/// What one installer event does to the interface (the flag tells whether
/// it was the end of the run).
pub open spec fn apply_install_event(m: AppModel, ev: InstallEvent) -> (AppModel, bool) {
    match ev {
        InstallEvent::Log(line) => (push_log_spec(m, line@), false),
        InstallEvent::Progress(p) => (AppModel { progress: progress_view(p), ..m }, false),
        InstallEvent::Finished(s) => (AppModel { status_line: finished_text(s), summary: Some(s), ..m }, true),
    }
}

pub open spec fn apply_install_events(m: AppModel, evs: Seq<InstallEvent>) -> (AppModel, bool)
    decreases evs.len(),
{
    if evs.len() == 0 {
        (m, false)
    } else {
        let (m1, f1) = apply_install_events(m, evs.drop_last());
        let (m2, f2) = apply_install_event(m1, evs.last());
        (m2, f1 || f2)
    }
}

/// The installer events applied in order; once the run finished, the
/// summary screen is shown and no run is active any more.
pub open spec fn consume_install_spec(m: AppModel, evs: Seq<InstallEvent>) -> AppModel {
    let (m1, finished) = apply_install_events(m, evs);
    if finished {
        AppModel { install_running: false, screen: Screen::Done, ..m1 }
    } else {
        m1
    }
}

/// The events in the order they will be popped.
fn reversed<T>(v: Vec<T>) -> (r: Vec<T>)
    ensures
        r@ == v@.reverse(),
{
    let mut v = v;
    let ghost orig = v@;
    let mut r: Vec<T> = Vec::new();
    while v.len() > 0
        invariant
            v@ == orig.take(v@.len() as int),
            r@ == orig.skip(v@.len() as int).reverse(),
            v@.len() <= orig.len(),
        decreases v@.len(),
    {
        let ghost n = v@.len();
        let x = v.pop().unwrap();
        r.push(x);
        assert(v@ =~= orig.take(n - 1));
        assert(r@ =~= orig.skip(n - 1).reverse());
    }
    assert(orig.skip(0) =~= orig);
    r
}

impl App {
    #[verifier::rlimit(40)]
    #[verifier::spinoff_prover]
    pub fn consume_index_event(&mut self, event: IndexEvent)
        requires
            old(self).wf(),
        ensures
            final(self).wf(),
            final(self)@ == apply_index_event(old(self)@, event),
    {
        let ghost m0 = self@;
        match event {
            IndexEvent::Status(line) => {
                self.status_line = line.clone();
                let mut t = owned("[index] ");
                t.append(line.as_str());
                self.push_log(t);
            },
            IndexEvent::Ready { packages, official_set, availability } => {
                let ghost pk = packages@;
                let ghost of = official_set@;
                self.search_job = None;
                self.matches.clear();
                self.packages = packages;
                self.official_set = official_set;
                self.availability = availability;
                self.index_ready = true;
                assert(self@.matches =~= Seq::<int>::empty());
                self.refresh_matches();
                let ghost m1 = AppModel { packages: pk, official: strings_view(of), availability, index_ready: true, ..m0 };
                assert(refresh_spec(m1) =~= self@);
                let mut st = owned("Package index ready: ");
                let n = usize_text(self.packages.len());
                st.append(n.as_str());
                st.append(" packages (");
                let line = self.availability.line();
                st.append(line.as_str());
                st.append(")");
                self.status_line = st.clone();
                self.push_log(st);
            },
            IndexEvent::Error(err) => {
                self.warning_line = Some(owned("Indexer failed, browse results may be incomplete"));
                let mut st = owned("Indexer error: ");
                st.append(err.as_str());
                self.status_line = st.clone();
                self.push_log(st);
            },
        }
    }

    /// Applies the events the index loader sent since the last tick, in order.
    pub fn consume_index_events(&mut self, events: Vec<IndexEvent>)
        requires
            old(self).wf(),
        ensures
            final(self).wf(),
            final(self)@ == apply_index_events(old(self)@, events@),
    {
        let ghost m0 = self@;
        let ghost evs = events@;
        let mut rev = reversed(events);
        while rev.len() > 0
            invariant
                self.wf(),
                rev@.len() <= evs.len(),
                rev@ == evs.skip(evs.len() - rev@.len()).reverse(),
                self@ == apply_index_events(m0, evs.take(evs.len() - rev@.len())),
            decreases rev@.len(),
        {
            let ghost k = evs.len() - rev@.len();
            let ev = rev.pop().unwrap();
            assert(ev == evs[k]);
            assert(evs.take(k + 1).drop_last() =~= evs.take(k));
            self.consume_index_event(ev);
            assert(rev@ =~= evs.skip(k + 1).reverse());
        }
        assert(evs.take(evs.len() as int) =~= evs);
    }

    /// Applies one installer event; answers whether it ended the run.
    pub fn consume_install_event(&mut self, ev: InstallEvent) -> (r: bool)
        requires
            old(self).wf(),
        ensures
            final(self).wf(),
            final(self)@ == apply_install_event(old(self)@, ev).0,
            r == apply_install_event(old(self)@, ev).1,
    {
        let ghost before = self@;
        match ev {
            InstallEvent::Log(line) => {
                self.push_log(line);
                false
            },
            InstallEvent::Progress(p) => {
                self.progress = p;
                assert(self@ =~= (AppModel { progress: progress_view(p), ..before }));
                false
            },
            InstallEvent::Finished(summary) => {
                let mut st = owned("Install finished: installed=");
                st.append(usize_text(summary.installed).as_str());
                st.append(" skipped=");
                st.append(usize_text(summary.skipped).as_str());
                st.append(" failed=");
                st.append(usize_text(summary.failed).as_str());
                self.status_line = st;
                self.summary = Some(summary);
                assert(self@ =~= (AppModel { status_line: finished_text(summary), summary: Some(summary), ..before }));
                true
            },
        }
    }

    /// Applies the events the installer sent since the last tick, in order.
    pub fn consume_install_events(&mut self, events: Vec<InstallEvent>)
        requires
            old(self).wf(),
        ensures
            final(self).wf(),
            final(self)@ == consume_install_spec(old(self)@, events@),
    {
        let ghost m0 = self@;
        let ghost evs = events@;
        let mut rev = reversed(events);
        let mut finished = false;
        while rev.len() > 0
            invariant
                self.wf(),
                rev@.len() <= evs.len(),
                rev@ == evs.skip(evs.len() - rev@.len()).reverse(),
                (self@, finished) == apply_install_events(m0, evs.take(evs.len() - rev@.len())),
            decreases rev@.len(),
        {
            let ghost k = evs.len() - rev@.len();
            let ev = rev.pop().unwrap();
            assert(ev == evs[k]);
            assert(evs.take(k + 1).drop_last() =~= evs.take(k));
            let ghost before = self@;
            let f = self.consume_install_event(ev);
            finished = finished || f;
            assert(rev@ =~= evs.skip(k + 1).reverse());
        }
        assert(evs.take(evs.len() as int) =~= evs);
        if finished {
            let ghost m1 = self@;
            self.install_running = false;
            self.screen = Screen::Done;
            assert(self@ =~= (AppModel { install_running: false, screen: Screen::Done, ..m1 }));
        }
    }
}

} // verus!
