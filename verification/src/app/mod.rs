//! The application state and its reactions to keys and background events.

pub mod search;
pub mod focus;
pub mod events;
pub mod actions;
pub mod input;

use vstd::prelude::*;
use std::collections::VecDeque;
use crate::model::{
    InstallProgress, InstallSummary, LogLevel, Manager, ManagerAvailability, PackageRecord,
    priority_preset, priority_to_text, PRIORITY_PRESET_COUNT, preset_spec, priority_text_spec,
};
use crate::art::{ArtFrame, MatrixArt, ArtModel};
use crate::installer::{ProgressModel, progress_view};
use crate::text::strings_view;
use crate::order::strictly_sorted;
use crate::backend::owned;
use self::search::{SearchJob, MAX_MATCHES};
use self::focus::{
    queue_focus_label, browse_focus_label, install_focus_label, done_focus_label,
    queue_focus_text, browse_focus_text, install_focus_text, done_focus_text,
};

verus! {

/// The four screens of the application.
#[derive(Clone, Copy, Debug, PartialEq, Eq, Structural)]
pub enum Screen {
    Queue,
    Browse,
    Installing,
    Done,
}

/// Panes of the queue screen.
#[derive(Clone, Copy, Debug, PartialEq, Eq, Structural)]
pub enum QueueFocus {
    Input,
    Priority,
    Queue,
    Install,
}

/// Panes of the browse screen.
#[derive(Clone, Copy, Debug, PartialEq, Eq, Structural)]
pub enum BrowseFocus {
    Search,
    Results,
}

/// Panes of the install screen.
#[derive(Clone, Copy, Debug, PartialEq, Eq, Structural)]
pub enum InstallFocus {
    Progress,
    Current,
    Logs,
}

/// Panes of the summary screen.
#[derive(Clone, Copy, Debug, PartialEq, Eq, Structural)]
pub enum DoneFocus {
    Summary,
    Unresolved,
}


/// One line of the activity log with its severity.
#[derive(Clone, Debug)]
pub struct LogEntry {
    pub level: LogLevel,
    pub text: String,
}

/// The whole state of the interface.
pub struct App {
    pub screen: Screen,
    pub queue_focus: QueueFocus,
    pub browse_focus: BrowseFocus,
    pub install_focus: InstallFocus,
    pub done_focus: DoneFocus,
    pub manual_input: String,
    pub search_query: String,
    pub queue: Vec<String>,
    pub queue_cursor: usize,
    pub result_cursor: usize,
    pub matches: Vec<usize>,
    pub packages: Vec<PackageRecord>,
    pub availability: ManagerAvailability,
    pub index_ready: bool,
    pub priority_idx: usize,
    pub dry_run: bool,
    pub progress: InstallProgress,
    pub summary: Option<InstallSummary>,
    pub logs: VecDeque<LogEntry>,
    pub status_line: String,
    pub warning_line: Option<String>,
    pub should_quit: bool,
    pub show_help: bool,
    pub search_loading: bool,
    pub official_set: Vec<String>,
    pub install_running: bool,
    pub matrix_art: MatrixArt,
    pub search_job: Option<SearchJob>,
    pub spinner_tick: usize,
}

/// A search in progress as plain values.
#[verifier::ext_equal]
pub struct JobModel {
    pub query: Seq<char>,
    pub cursor: int,
    pub top: Seq<(i64, usize)>,
}

/// The interface state as plain values.
#[verifier::ext_equal]
pub struct AppModel {
    pub screen: Screen,
    pub queue_focus: QueueFocus,
    pub browse_focus: BrowseFocus,
    pub install_focus: InstallFocus,
    pub done_focus: DoneFocus,
    pub manual_input: Seq<char>,
    pub search_query: Seq<char>,
    pub queue: Seq<Seq<char>>,
    pub queue_cursor: int,
    pub result_cursor: int,
    pub matches: Seq<int>,
    pub packages: Seq<PackageRecord>,
    pub availability: ManagerAvailability,
    pub index_ready: bool,
    pub priority_idx: int,
    pub dry_run: bool,
    pub progress: ProgressModel,
    pub summary: Option<InstallSummary>,
    pub logs: Seq<(LogLevel, Seq<char>)>,
    pub status_line: Seq<char>,
    pub warning_line: Option<Seq<char>>,
    pub should_quit: bool,
    pub show_help: bool,
    pub search_loading: bool,
    pub official: Seq<Seq<char>>,
    pub install_running: bool,
    pub art: ArtModel,
    pub job: Option<JobModel>,
    pub spinner_tick: int,
}

pub open spec fn log_view(l: Seq<LogEntry>) -> Seq<(LogLevel, Seq<char>)> {
    l.map_values(|e: LogEntry| (e.level, e.text@))
}

pub open spec fn opt_text(o: Option<String>) -> Option<Seq<char>> {
    match o {
        Some(s) => Some(s@),
        None => None,
    }
}

pub open spec fn job_view(j: Option<SearchJob>) -> Option<JobModel> {
    match j {
        Some(j) => Some(JobModel { query: j.query@, cursor: j.cursor as int, top: j.top@ }),
        None => None,
    }
}

pub open spec fn usize_ints(v: Seq<usize>) -> Seq<int> {
    v.map_values(|x: usize| x as int)
}

impl View for App {
    type V = AppModel;

    open spec fn view(&self) -> AppModel {
        AppModel {
            screen: self.screen,
            queue_focus: self.queue_focus,
            browse_focus: self.browse_focus,
            install_focus: self.install_focus,
            done_focus: self.done_focus,
            manual_input: self.manual_input@,
            search_query: self.search_query@,
            queue: strings_view(self.queue@),
            queue_cursor: self.queue_cursor as int,
            result_cursor: self.result_cursor as int,
            matches: usize_ints(self.matches@),
            packages: self.packages@,
            availability: self.availability,
            index_ready: self.index_ready,
            priority_idx: self.priority_idx as int,
            dry_run: self.dry_run,
            progress: progress_view(self.progress),
            summary: self.summary,
            logs: log_view(self.logs@),
            status_line: self.status_line@,
            warning_line: opt_text(self.warning_line),
            should_quit: self.should_quit,
            show_help: self.show_help,
            search_loading: self.search_loading,
            official: strings_view(self.official_set@),
            install_running: self.install_running,
            art: self.matrix_art@,
            job: job_view(self.search_job),
            spinner_tick: self.spinner_tick as int,
        }
    }
}

/// Longest activity log kept.
pub const MAX_LOG_LINES: usize = 500;

impl AppModel {
    /// What every state of the interface satisfies.
    pub open spec fn wf(self) -> bool {
        &&& strictly_sorted(self.queue)
        &&& 0 <= self.priority_idx < PRIORITY_PRESET_COUNT
        &&& self.logs.len() <= MAX_LOG_LINES
        &&& 0 <= self.spinner_tick < 4
        &&& (forall|i: int| 0 <= i < self.matches.len() ==> 0 <= #[trigger] self.matches[i] < self.packages.len())
        &&& self.matches.len() <= MAX_MATCHES
        &&& (self.job matches Some(j) ==> {
            &&& j.cursor <= self.packages.len()
            &&& search::is_top(self.packages, j.query, j.cursor, j.top)
        })
    }
}

impl App {
    pub open spec fn wf(&self) -> bool {
        &&& self@.wf()
        &&& self.matrix_art.wf()
    }

    /// The interface at start-up: queue screen, input focused, nothing loaded.
    pub fn new() -> (r: App)
        ensures
            r.wf(),
            r@.screen == Screen::Queue,
            r@.queue_focus == QueueFocus::Input,
            r@.browse_focus == BrowseFocus::Search,
            r@.install_focus == InstallFocus::Progress,
            r@.done_focus == DoneFocus::Summary,
            r@.manual_input.len() == 0,
            r@.search_query.len() == 0,
            r@.queue.len() == 0,
            r@.queue_cursor == 0 && r@.result_cursor == 0,
            r@.matches.len() == 0,
            r@.packages.len() == 0,
            !r@.availability.pacman && !r@.availability.yay && !r@.availability.paru,
            !r@.index_ready,
            r@.priority_idx == 0,
            !r@.dry_run,
            r@.summary is None,
            r@.logs.len() == 0,
            r@.status_line == "Bootstrapping package index..."@,
            r@.warning_line is None,
            !r@.should_quit && !r@.show_help && !r@.search_loading,
            r@.official.len() == 0,
            !r@.install_running,
            r@.job is None,
            r@.spinner_tick == 0,
            r@.progress == (ProgressModel { total: 0, done: 0, installed: 0, skipped: 0, failed: 0, stage: seq![], current: None }),
            r@.art.drops.len() == 0 && r@.art.palette == 0 && r@.art.banner == 0,
    {
        let r = App {
            screen: Screen::Queue,
            queue_focus: QueueFocus::Input,
            browse_focus: BrowseFocus::Search,
            install_focus: InstallFocus::Progress,
            done_focus: DoneFocus::Summary,
            manual_input: String::new(),
            search_query: String::new(),
            queue: Vec::new(),
            queue_cursor: 0,
            result_cursor: 0,
            matches: Vec::new(),
            packages: Vec::new(),
            availability: ManagerAvailability::default(),
            index_ready: false,
            priority_idx: 0,
            dry_run: false,
            progress: InstallProgress::default(),
            summary: None,
            logs: VecDeque::new(),
            status_line: owned("Bootstrapping package index..."),
            warning_line: None,
            should_quit: false,
            show_help: false,
            search_loading: false,
            official_set: Vec::new(),
            install_running: false,
            matrix_art: MatrixArt::new(),
            search_job: None,
            spinner_tick: 0,
        };
        assert(r@.queue =~= Seq::<Seq<char>>::empty());
        assert(r@.logs =~= Seq::<(LogLevel, Seq<char>)>::empty());
        assert(r@.matches =~= Seq::<int>::empty());
        assert(r@.progress.stage =~= Seq::<char>::empty());
        r
    }

    /// `pacman -> yay -> paru` for the selected priority preset.
    pub fn priority_text(&self) -> (r: String)
        requires
            self.wf(),
        ensures
            r@ == priority_text_spec(preset_spec(self@.priority_idx)),
    {
        let p = priority_preset(self.priority_idx);
        priority_to_text(&p)
    }

    pub fn view_label(&self) -> (r: &'static str)
        ensures
            r@ == view_text(self@.screen),
    {
        match self.screen {
            Screen::Queue => "Queue",
            Screen::Browse => "Browse",
            Screen::Installing => "Installing",
            Screen::Done => "Summary",
        }
    }

    /// `Queue/Input`, `Browse/Results`, ...
    pub fn focus_label(&self) -> (r: String)
        ensures
            r@ == focus_text(self@),
    {
        match self.screen {
            Screen::Queue => {
                let mut s = owned("Queue/");
                s.append(queue_focus_label(self.queue_focus));
                s
            },
            Screen::Browse => {
                let mut s = owned("Browse/");
                s.append(browse_focus_label(self.browse_focus));
                s
            },
            Screen::Installing => {
                let mut s = owned("Installing/");
                s.append(install_focus_label(self.install_focus));
                s
            },
            Screen::Done => {
                let mut s = owned("Summary/");
                s.append(done_focus_label(self.done_focus));
                s
            },
        }
    }

    pub fn keybind_hint(&self) -> (r: &'static str)
        ensures
            r@ == hint_text(self@.screen),
    {
        match self.screen {
            Screen::Queue => "Tab Shift+Tab focus | a add | b browse | i install",
            Screen::Browse => "Tab Shift+Tab focus | Enter add | Esc clear/back | / search",
            Screen::Installing => "Tab Shift+Tab focus | c abort | q abort | ? help",
            Screen::Done => "Tab Shift+Tab focus | r back | Enter quit | ? help",
        }
    }

    pub fn spinner_char(&self) -> (r: char)
        requires
            self.wf(),
        ensures
            r == spinner_frame(self@.spinner_tick),
    {
        let frames = ['|', '/', '-', '\\'];
        frames[self.spinner_tick % 4]
    }

    pub fn queue_count(&self) -> (r: usize)
        ensures
            r == self@.queue.len(),
    {
        self.queue.len()
    }

    pub fn queue_contains(&self, pkg: &str) -> (r: bool)
        ensures
            r == self@.queue.contains(pkg@),
    {
        let s = owned(pkg);
        crate::installer::contains_string(&self.queue, &s)
    }

    /// The manager a queued package is expected to come from: pacman for
    /// official packages, otherwise the AUR helper, falling back to pacman.
    pub fn queue_manager_for(&self, pkg: &str) -> (r: Manager)
        ensures
            r == manager_for(self@, pkg@),
    {
        let s = owned(pkg);
        if crate::installer::contains_string(&self.official_set, &s) {
            Manager::Pacman
        } else {
            match self.availability.aur_helper() {
                Some(m) => m,
                None => Manager::Pacman,
            }
        }
    }

    pub fn search_result_count(&self) -> (r: usize)
        ensures
            r == self@.matches.len(),
    {
        self.matches.len()
    }

    pub fn active_warning(&self) -> (r: Option<&str>)
        ensures
            match r {
                Some(s) => self@.warning_line == Some(s@),
                None => self@.warning_line is None,
            },
    {
        match &self.warning_line {
            Some(w) => Some(w.as_str()),
            None => None,
        }
    }

    pub fn clear_warning(&mut self)
        requires
            old(self).wf(),
        ensures
            final(self).wf(),
            final(self)@ == (AppModel { warning_line: None, ..old(self)@ }),
    {
        self.warning_line = None;
    }

    /// Whether an install run is in progress.
    pub fn install_active(&self) -> (r: bool)
        ensures
            r == self@.install_running,
    {
        self.install_running
    }

    /// Draws the next frame of the side panel.
    #[verifier::rlimit(30)]
    pub fn art_frame(&mut self, width: u16, height: u16) -> (r: ArtFrame)
        requires
            old(self).wf(),
        ensures
            final(self).wf(),
            final(self)@ == (AppModel { art: final(self)@.art, ..old(self)@ }),
            exists|theme_ms: u128, step_ms: u128, now: std::time::Instant| {
                &&& crate::art::after_frame(old(self)@.art, final(self)@.art, crate::art::clamp4(width), crate::art::clamp4(height), theme_ms, step_ms, now)
                &&& strings_view(r.lines@) == crate::art::frame_rows(old(self)@.art, crate::art::clamp4(width), crate::art::clamp4(height), crate::art::theme_due(theme_ms), crate::art::step_due(step_ms))
            },
            r.title@ == crate::art::banner_spec(final(self)@.art.banner),
            r.palette == final(self)@.art.palette,
            r.palette < crate::art::PALETTE_COUNT,
            0 <= final(self)@.art.banner < crate::art::BANNER_COUNT,
    {
        let ghost m0 = self@;
        let ghost a0 = self.matrix_art@;
        assert(m0.art == a0);
        let r = self.matrix_art.frame(width, height);
        proof {
            let w = crate::art::clamp4(width);
            let h = crate::art::clamp4(height);
            let (t, st, now) = choose|t: u128, st: u128, now: std::time::Instant| {
                &&& crate::art::after_frame(a0, self.matrix_art@, w, h, t, st, now)
                &&& strings_view(r.lines@) == crate::art::frame_rows(a0, w, h, crate::art::theme_due(t), crate::art::step_due(st))
            };
            assert(self@.art == self.matrix_art@);
            assert(crate::art::after_frame(m0.art, self@.art, w, h, t, st, now));
        }
        assert(self@ =~= (AppModel { art: self@.art, ..m0 }));
        r
    }
}

pub open spec fn view_text(s: Screen) -> Seq<char> {
    match s {
        Screen::Queue => "Queue"@,
        Screen::Browse => "Browse"@,
        Screen::Installing => "Installing"@,
        Screen::Done => "Summary"@,
    }
}

pub open spec fn focus_text(m: AppModel) -> Seq<char> {
    match m.screen {
        Screen::Queue => "Queue/"@ + queue_focus_text(m.queue_focus),
        Screen::Browse => "Browse/"@ + browse_focus_text(m.browse_focus),
        Screen::Installing => "Installing/"@ + install_focus_text(m.install_focus),
        Screen::Done => "Summary/"@ + done_focus_text(m.done_focus),
    }
}

pub open spec fn hint_text(s: Screen) -> Seq<char> {
    match s {
        Screen::Queue => "Tab Shift+Tab focus | a add | b browse | i install"@,
        Screen::Browse => "Tab Shift+Tab focus | Enter add | Esc clear/back | / search"@,
        Screen::Installing => "Tab Shift+Tab focus | c abort | q abort | ? help"@,
        Screen::Done => "Tab Shift+Tab focus | r back | Enter quit | ? help"@,
    }
}

pub open spec fn spinner_frame(t: int) -> char {
    if t == 0 { '|' } else if t == 1 { '/' } else if t == 2 { '-' } else { '\\' }
}

pub open spec fn manager_for(m: AppModel, pkg: Seq<char>) -> Manager {
    if m.official.contains(pkg) {
        Manager::Pacman
    } else {
        match m.availability.aur_helper_spec() {
            Some(x) => x,
            None => Manager::Pacman,
        }
    }
}


impl App {
    /// One turn of the event loop: the events of the index loader and of the
    /// installer are applied, the search job advances one batch and the
    /// spinner moves on.
    #[verifier::rlimit(30)]
    pub fn tick(&mut self, index_events: Vec<crate::indexer::IndexEvent>, install_events: Vec<crate::installer::InstallEvent>)
        requires
            old(self).wf(),
        ensures
            final(self).wf(),
            search::advance_post(
                events::consume_install_spec(events::apply_index_events(old(self)@, index_events@), install_events@),
                AppModel { spinner_tick: old(self)@.spinner_tick, ..final(self)@ },
            ),
            final(self)@.spinner_tick == (old(self)@.spinner_tick + 1) % 4,
    {
        let ghost m0 = self@;
        self.consume_index_events(index_events);
        self.consume_install_events(install_events);
        let ghost b = self@;
        self.advance_search_job();
        let ghost c = self@;
        self.spinner_tick = (self.spinner_tick + 1) % 4;
        proof {
            lemma_index_events_keep_spinner(m0, index_events@);
            lemma_install_events_keep_spinner(events::apply_index_events(m0, index_events@), install_events@);
        }
        assert(c.spinner_tick == m0.spinner_tick);
        assert(AppModel { spinner_tick: m0.spinner_tick, ..self@ } =~= c);
    }
}

proof fn lemma_index_events_keep_spinner(m: AppModel, evs: Seq<crate::indexer::IndexEvent>)
    ensures
        events::apply_index_events(m, evs).spinner_tick == m.spinner_tick,
    decreases evs.len(),
{
    if evs.len() > 0 {
        lemma_index_events_keep_spinner(m, evs.drop_last());
    }
}

proof fn lemma_install_events_keep_spinner(m: AppModel, evs: Seq<crate::installer::InstallEvent>)
    ensures
        events::apply_install_events(m, evs).0.spinner_tick == m.spinner_tick,
        events::consume_install_spec(m, evs).spinner_tick == m.spinner_tick,
    decreases evs.len(),
{
    if evs.len() > 0 {
        lemma_install_events_keep_spinner(m, evs.drop_last());
    }
}

} // verus!
