//! Key handling.

use vstd::prelude::*;
use crate::model::{PRIORITY_PRESET_COUNT, preset_spec, priority_text_spec};
use crate::backend::owned;
use super::{App, AppModel, Screen, QueueFocus, BrowseFocus, InstallFocus, DoneFocus};
use super::focus::{
    next_queue, prev_queue, next_install, prev_install, next_done, next_queue_focus,
    prev_queue_focus, next_install_focus, prev_install_focus, next_done_focus, prev_done_focus,
};
use super::actions::{add_manual_spec, add_highlighted_spec, remove_selected_spec, remove_named_spec};
use super::search::refresh_spec;

verus! {

/// The key of a key press.
#[derive(Clone, Copy, Debug, PartialEq, Eq, Structural)]
pub enum KeyCode {
    Char(char),
    Tab,
    BackTab,
    Enter,
    Backspace,
    Esc,
    Up,
    Down,
    Left,
    Right,
    Other,
}

/// Modifier keys held during a key press.
#[derive(Clone, Copy, Debug, PartialEq, Eq, Structural)]
pub struct KeyMods {
    pub shift: bool,
    pub control: bool,
    pub alt: bool,
    /// Super, hyper or meta.
    pub other: bool,
}

/// A key press.
#[derive(Clone, Copy, Debug, PartialEq, Eq, Structural)]
pub struct KeyInput {
    pub code: KeyCode,
    pub mods: KeyMods,
}

impl KeyInput {
    /// A key pressed without modifiers.
    pub fn plain(code: KeyCode) -> (r: KeyInput)
        ensures
            r.code == code,
            r.mods == (KeyMods { shift: false, control: false, alt: false, other: false }),
    {
        KeyInput { code, mods: KeyMods { shift: false, control: false, alt: false, other: false } }
    }
}

pub open spec fn no_mods(k: KeyInput) -> bool {
    !k.mods.shift && !k.mods.control && !k.mods.alt && !k.mods.other
}

/// No modifier, or shift alone: the key types a character.
pub open spec fn typing(k: KeyInput) -> bool {
    !k.mods.control && !k.mods.alt && !k.mods.other
}

/// What a key asks of the caller besides the state change.
#[derive(Clone, Copy, Debug, PartialEq, Eq, Structural)]
pub enum AppCommand {
    Nothing,
    /// Start an install (see `App::start_install`).
    StartInstall,
    /// Raise the abort flag of the running install.
    Abort,
}

pub open spec fn is_char(k: KeyInput, c: char) -> bool {
    k.code == KeyCode::Char(c)
}

pub open spec fn text_entry(m: AppModel) -> bool {
    (m.screen == Screen::Queue && m.queue_focus == QueueFocus::Input) || (m.screen == Screen::Browse
        && m.browse_focus == BrowseFocus::Search)
}

pub open spec fn abort_requested(m: AppModel) -> AppModel {
    AppModel {
        warning_line: Some("Abort requested. Waiting for safe checkpoint..."@),
        status_line: "Abort requested"@,
        ..m
    }
}

/// Keys that act on every screen: `?` help, and outside text entry `q`
/// quit (abort while installing), `1`/`2` switch screens, `i` install.
/// `None` when the key is not one of them.
pub open spec fn global_key_spec(m: AppModel, k: KeyInput) -> Option<(AppModel, AppCommand)> {
    if is_char(k, '?') {
        Some((AppModel { show_help: !m.show_help, ..m }, AppCommand::Nothing))
    } else if text_entry(m) {
        None
    } else if is_char(k, 'q') {
        if m.screen == Screen::Installing {
            Some((abort_requested(m), AppCommand::Abort))
        } else {
            Some((AppModel { should_quit: true, ..m }, AppCommand::Nothing))
        }
    } else if is_char(k, '1') {
        Some((if m.screen != Screen::Installing { AppModel { screen: Screen::Queue, ..m } } else { m }, AppCommand::Nothing))
    } else if is_char(k, '2') {
        Some((if m.screen != Screen::Installing { AppModel { screen: Screen::Browse, ..m } } else { m }, AppCommand::Nothing))
    } else if is_char(k, 'i') {
        Some((m, if m.screen != Screen::Installing { AppCommand::StartInstall } else { AppCommand::Nothing }))
    } else {
        None
    }
}

pub open spec fn text_input_spec(m: AppModel, k: KeyInput) -> (AppModel, AppCommand) {
    match k.code {
        KeyCode::Backspace => (AppModel { manual_input: if m.manual_input.len() > 0 { m.manual_input.drop_last() } else { m.manual_input }, ..m }, AppCommand::Nothing),
        KeyCode::Enter => (add_manual_spec(m), AppCommand::Nothing),
        KeyCode::Char(c) => if typing(k) { (AppModel { manual_input: m.manual_input.push(c), ..m }, AppCommand::Nothing) } else { (m, AppCommand::Nothing) },
        _ => (m, AppCommand::Nothing),
    }
}

pub open spec fn priority_key_spec(m: AppModel, k: KeyInput) -> AppModel {
    if k.code == KeyCode::Left || is_char(k, 'h') {
        AppModel { priority_idx: if m.priority_idx == 0 { PRIORITY_PRESET_COUNT - 1 } else { m.priority_idx - 1 }, ..m }
    } else if k.code == KeyCode::Right || is_char(k, 'l') || k.code == KeyCode::Enter || is_char(k, ' ') {
        AppModel { priority_idx: (m.priority_idx + 1) % (PRIORITY_PRESET_COUNT as int), ..m }
    } else {
        m
    }
}

pub open spec fn step_up(c: int) -> int {
    if c > 0 { c - 1 } else { 0 }
}

pub open spec fn step_down(c: int, len: int) -> int {
    if c + 1 < len - 1 { c + 1 } else { len - 1 }
}

/// The queue list moves its cursor with `k` and `j`; Up and Down move the
/// focus between the rows of the screen before a key gets here.
pub open spec fn queue_list_spec(m: AppModel, k: KeyInput) -> AppModel {
    if is_char(k, 'k') {
        AppModel { queue_cursor: step_up(m.queue_cursor), ..m }
    } else if is_char(k, 'j') {
        if m.queue.len() > 0 { AppModel { queue_cursor: step_down(m.queue_cursor, m.queue.len() as int), ..m } } else { m }
    } else if is_char(k, 'd') {
        remove_selected_spec(m)
    } else if is_char(k, 'x') {
        AppModel { queue: seq![], queue_cursor: 0, status_line: "Queue cleared"@, ..m }
    } else {
        m
    }
}

/// The queue screen: Tab and Down move the focus to the next row, BackTab
/// and Up to the one before; in the text field a typed character goes into
/// the field, except a plain `a`, which adds the list as Enter does; `b`
/// opens the browser, `t` switches dry-run and `a` adds the typed list;
/// other keys go to the row that has the focus.
pub open spec fn queue_key_spec(m: AppModel, k: KeyInput) -> (AppModel, AppCommand) {
    if k.code == KeyCode::Tab {
        (AppModel { queue_focus: next_queue(m.queue_focus), ..m }, AppCommand::Nothing)
    } else if k.code == KeyCode::BackTab || k.code == KeyCode::Up {
        (AppModel { queue_focus: prev_queue(m.queue_focus), ..m }, AppCommand::Nothing)
    } else if k.code == KeyCode::Down {
        (AppModel { queue_focus: next_queue(m.queue_focus), ..m }, AppCommand::Nothing)
    } else if m.queue_focus == QueueFocus::Input && k.code is Char && typing(k) && !(is_char(k, 'a') && no_mods(k)) {
        text_input_spec(m, k)
    } else if is_char(k, 'b') {
        (AppModel { screen: Screen::Browse, browse_focus: BrowseFocus::Search, status_line: "Browse packages with fuzzy search"@, ..m }, AppCommand::Nothing)
    } else if is_char(k, 't') {
        (AppModel { dry_run: !m.dry_run, status_line: if !m.dry_run { "Dry-run enabled"@ } else { "Dry-run disabled"@ }, ..m }, AppCommand::Nothing)
    } else if is_char(k, 'a') && no_mods(k) {
        (add_manual_spec(m), AppCommand::Nothing)
    } else {
        match m.queue_focus {
            QueueFocus::Input => text_input_spec(m, k),
            QueueFocus::Priority => (priority_key_spec(m, k), AppCommand::Nothing),
            QueueFocus::Queue => (queue_list_spec(m, k), AppCommand::Nothing),
            QueueFocus::Install => (m, if k.code == KeyCode::Enter || is_char(k, ' ') { AppCommand::StartInstall } else { AppCommand::Nothing }),
        }
    }
}

pub open spec fn search_key_spec(m: AppModel, k: KeyInput) -> AppModel {
    match k.code {
        KeyCode::Backspace => refresh_spec(AppModel { search_query: if m.search_query.len() > 0 { m.search_query.drop_last() } else { m.search_query }, ..m }),
        KeyCode::Enter => AppModel { browse_focus: BrowseFocus::Results, ..m },
        KeyCode::Down => AppModel { browse_focus: BrowseFocus::Results, ..m },
        KeyCode::Char(c) => if typing(k) { refresh_spec(AppModel { search_query: m.search_query.push(c), ..m }) } else { m },
        _ => m,
    }
}

pub open spec fn result_key_spec(m: AppModel, k: KeyInput) -> AppModel {
    if k.code == KeyCode::Up || is_char(k, 'k') {
        AppModel { result_cursor: step_up(m.result_cursor), ..m }
    } else if k.code == KeyCode::Down || is_char(k, 'j') {
        if m.matches.len() > 0 { AppModel { result_cursor: step_down(m.result_cursor, m.matches.len() as int), ..m } } else { m }
    } else if k.code == KeyCode::Enter || is_char(k, ' ') || is_char(k, 'a') {
        add_highlighted_spec(m)
    } else if is_char(k, 'd') {
        if 0 <= m.result_cursor < m.matches.len() && 0 <= m.matches[m.result_cursor] < m.packages.len() {
            remove_named_spec(m, m.packages[m.matches[m.result_cursor]].name@)
        } else {
            m
        }
    } else {
        m
    }
}

pub open spec fn browse_key_spec(m: AppModel, k: KeyInput) -> AppModel {
    if k.code == KeyCode::Tab || k.code == KeyCode::BackTab {
        AppModel { browse_focus: if m.browse_focus == BrowseFocus::Search { BrowseFocus::Results } else { BrowseFocus::Search }, ..m }
    } else if k.code == KeyCode::Esc {
        if m.search_query.len() > 0 {
            refresh_spec(AppModel { search_query: seq![], browse_focus: BrowseFocus::Search, ..m })
        } else {
            AppModel { screen: Screen::Queue, browse_focus: BrowseFocus::Search, ..m }
        }
    } else if is_char(k, '/') {
        AppModel { browse_focus: BrowseFocus::Search, ..m }
    } else {
        match m.browse_focus {
            BrowseFocus::Search => search_key_spec(m, k),
            BrowseFocus::Results => result_key_spec(m, k),
        }
    }
}

pub open spec fn installing_key_spec(m: AppModel, k: KeyInput) -> (AppModel, AppCommand) {
    if k.code == KeyCode::Tab {
        (AppModel { install_focus: next_install(m.install_focus), ..m }, AppCommand::Nothing)
    } else if k.code == KeyCode::BackTab {
        (AppModel { install_focus: prev_install(m.install_focus), ..m }, AppCommand::Nothing)
    } else if is_char(k, 'c') {
        (abort_requested(m), AppCommand::Abort)
    } else {
        (m, AppCommand::Nothing)
    }
}

pub open spec fn done_key_spec(m: AppModel, k: KeyInput) -> AppModel {
    if k.code == KeyCode::Tab || k.code == KeyCode::BackTab {
        AppModel { done_focus: next_done(m.done_focus), ..m }
    } else if is_char(k, 'r') {
        AppModel { screen: Screen::Queue, summary: None, done_focus: DoneFocus::Summary, ..m }
    } else if k.code == KeyCode::Enter {
        AppModel { should_quit: true, ..m }
    } else {
        m
    }
}

/// What a key press does: global keys first, then the keys of the screen.
pub open spec fn on_key_spec(m: AppModel, k: KeyInput) -> (AppModel, AppCommand) {
    match global_key_spec(m, k) {
        Some(r) => r,
        None => match m.screen {
            Screen::Queue => queue_key_spec(m, k),
            Screen::Browse => (browse_key_spec(m, k), AppCommand::Nothing),
            Screen::Installing => installing_key_spec(m, k),
            Screen::Done => (done_key_spec(m, k), AppCommand::Nothing),
        },
    }
}


/// On the queue screen, outside the text field, `t` switches dry-run on or
/// off and says which; pressing it twice gives the setting back, and neither
/// press touches the queue or leaves the screen.
pub proof fn law_dry_run_toggle_round_trip(m: AppModel, k: KeyInput)
    requires
        m.screen == Screen::Queue,
        m.queue_focus != QueueFocus::Input,
        is_char(k, 't'),
    ensures
        ({
            let m1 = on_key_spec(m, k).0;
            let m2 = on_key_spec(m1, k).0;
            &&& m1.dry_run == !m.dry_run
            &&& m1.status_line == (if m1.dry_run { "Dry-run enabled"@ } else { "Dry-run disabled"@ })
            &&& m2.dry_run == m.dry_run
            &&& m1.queue == m.queue && m2.queue == m.queue
            &&& m1.screen == Screen::Queue && m2.screen == Screen::Queue
        }),
{
}

/// On the queue screen Down moves the focus to the next row (input,
/// priority, queue, actions, then round again) and Up to the one before,
/// whatever row has it; Down then Up, or Up then Down, gives the state back.
pub proof fn law_queue_focus_up_down(m: AppModel, up: KeyInput, down: KeyInput)
    requires
        m.screen == Screen::Queue,
        up.code == KeyCode::Up,
        down.code == KeyCode::Down,
    ensures
        on_key_spec(m, down).0 == (AppModel { queue_focus: next_queue(m.queue_focus), ..m }),
        on_key_spec(m, up).0 == (AppModel { queue_focus: prev_queue(m.queue_focus), ..m }),
        on_key_spec(on_key_spec(m, down).0, up).0 == m,
        on_key_spec(on_key_spec(m, up).0, down).0 == m,
{
    let md = AppModel { queue_focus: next_queue(m.queue_focus), ..m };
    let mu = AppModel { queue_focus: prev_queue(m.queue_focus), ..m };
    lemma_queue_focus_key(m, down);
    lemma_queue_focus_key(m, up);
    lemma_queue_focus_key(md, up);
    lemma_queue_focus_key(mu, down);
    assert(prev_queue(next_queue(m.queue_focus)) == m.queue_focus);
    assert(next_queue(prev_queue(m.queue_focus)) == m.queue_focus);
    assert((AppModel { queue_focus: prev_queue(md.queue_focus), ..md }) == m);
    assert((AppModel { queue_focus: next_queue(mu.queue_focus), ..mu }) == m);
}

proof fn lemma_queue_focus_key(m: AppModel, k: KeyInput)
    requires
        m.screen == Screen::Queue,
        k.code == KeyCode::Up || k.code == KeyCode::Down,
    ensures
        k.code == KeyCode::Down ==> on_key_spec(m, k).0 == (AppModel { queue_focus: next_queue(m.queue_focus), ..m }),
        k.code == KeyCode::Up ==> on_key_spec(m, k).0 == (AppModel { queue_focus: prev_queue(m.queue_focus), ..m }),
{
    assert(global_key_spec(m, k) is None);
}

/// On the priority row, Right (or `l`, Enter, Space) steps to the next
/// preset and Left (or `h`) to the one before, wrapping at both ends; a step
/// one way and a step back give the preset back.
pub proof fn law_priority_cycle_round_trip(m: AppModel, fwd: KeyInput, back: KeyInput)
    requires
        0 <= m.priority_idx < PRIORITY_PRESET_COUNT,
        fwd.code == KeyCode::Right || is_char(fwd, 'l') || fwd.code == KeyCode::Enter || is_char(fwd, ' '),
        back.code == KeyCode::Left || is_char(back, 'h'),
    ensures
        priority_key_spec(m, fwd).priority_idx == (m.priority_idx + 1) % (PRIORITY_PRESET_COUNT as int),
        m.priority_idx == 0 ==> priority_key_spec(m, back).priority_idx == PRIORITY_PRESET_COUNT - 1,
        m.priority_idx > 0 ==> priority_key_spec(m, back).priority_idx == m.priority_idx - 1,
        priority_key_spec(priority_key_spec(m, fwd), back).priority_idx == m.priority_idx,
        priority_key_spec(priority_key_spec(m, back), fwd).priority_idx == m.priority_idx,
        priority_text_spec(preset_spec(priority_key_spec(priority_key_spec(m, fwd), back).priority_idx))
            == priority_text_spec(preset_spec(m.priority_idx)),
        (m.screen == Screen::Queue && m.queue_focus == QueueFocus::Priority) ==> {
            &&& on_key_spec(m, fwd).0 == priority_key_spec(m, fwd)
            &&& on_key_spec(m, back).0 == priority_key_spec(m, back)
        },
{
}

fn code_is_char(k: KeyInput, c: char) -> (r: bool)
    ensures
        r == is_char(k, c),
{
    match k.code {
        KeyCode::Char(x) => x == c,
        _ => false,
    }
}

impl App {
    fn mark_abort_requested(&mut self)
        requires
            old(self).wf(),
        ensures
            final(self).wf(),
            final(self)@ == abort_requested(old(self)@),
    {
        let ghost m0 = self@;
        self.warning_line = Some(owned("Abort requested. Waiting for safe checkpoint..."));
        self.status_line = owned("Abort requested");
        assert(self@ =~= abort_requested(m0));
    }

    /// Handles a global key; `None` when the key is not one.
    pub fn handle_global_key(&mut self, key: KeyInput) -> (r: Option<AppCommand>)
        requires
            old(self).wf(),
        ensures
            final(self).wf(),
            match global_key_spec(old(self)@, key) {
                Some((m2, c)) => final(self)@ == m2 && r == Some(c),
                None => final(self)@ == old(self)@ && r is None,
            },
    {
        let ghost m0 = self@;
        if code_is_char(key, '?') {
            self.show_help = !self.show_help;
            assert(self@ =~= (AppModel { show_help: !m0.show_help, ..m0 }));
            return Some(AppCommand::Nothing);
        }
        let is_text_entry = (self.screen == Screen::Queue && self.queue_focus == QueueFocus::Input)
            || (self.screen == Screen::Browse && self.browse_focus == BrowseFocus::Search);
        if is_text_entry {
            return None;
        }
        if code_is_char(key, 'q') {
            if self.screen == Screen::Installing {
                self.mark_abort_requested();
                return Some(AppCommand::Abort);
            } else {
                self.should_quit = true;
                assert(self@ =~= (AppModel { should_quit: true, ..m0 }));
                return Some(AppCommand::Nothing);
            }
        }
        if code_is_char(key, '1') {
            if self.screen != Screen::Installing {
                self.screen = Screen::Queue;
                assert(self@ =~= (AppModel { screen: Screen::Queue, ..m0 }));
            }
            return Some(AppCommand::Nothing);
        }
        if code_is_char(key, '2') {
            if self.screen != Screen::Installing {
                self.screen = Screen::Browse;
                assert(self@ =~= (AppModel { screen: Screen::Browse, ..m0 }));
            }
            return Some(AppCommand::Nothing);
        }
        if code_is_char(key, 'i') {
            if self.screen != Screen::Installing {
                return Some(AppCommand::StartInstall);
            }
            return Some(AppCommand::Nothing);
        }
        None
    }

    fn handle_text_input_key(&mut self, key: KeyInput) -> (r: AppCommand)
        requires
            old(self).wf(),
        ensures
            final(self).wf(),
            (final(self)@, r) == text_input_spec(old(self)@, key),
    {
        let ghost m0 = self@;
        match key.code {
            KeyCode::Backspace => {
                let _ = self.manual_input.pop();
                assert(self@ =~= text_input_spec(m0, key).0);
            },
            KeyCode::Enter => self.add_from_manual_input(),
            KeyCode::Char(ch) => {
                if !key.mods.control && !key.mods.alt && !key.mods.other {
                    self.manual_input.push(ch);
                    assert(self@ =~= text_input_spec(m0, key).0);
                }
            },
            _ => {},
        }
        AppCommand::Nothing
    }

    /// Left or `h` steps the source priority back one preset, Right, `l`,
    /// Enter or Space one forward, wrapping at both ends.
    pub fn handle_priority_key(&mut self, key: KeyInput)
        requires
            old(self).wf(),
        ensures
            final(self).wf(),
            final(self)@ == priority_key_spec(old(self)@, key),
    {
        let ghost m0 = self@;
        if key.code == KeyCode::Left || code_is_char(key, 'h') {
            if self.priority_idx == 0 {
                self.priority_idx = PRIORITY_PRESET_COUNT - 1;
            } else {
                self.priority_idx = self.priority_idx - 1;
            }
        } else if key.code == KeyCode::Right || code_is_char(key, 'l') || key.code == KeyCode::Enter || code_is_char(key, ' ') {
            self.priority_idx = (self.priority_idx + 1) % PRIORITY_PRESET_COUNT;
        }
        assert(self@ =~= priority_key_spec(m0, key));
    }

    fn handle_queue_list_key(&mut self, key: KeyInput)
        requires
            old(self).wf(),
        ensures
            final(self).wf(),
            final(self)@ == queue_list_spec(old(self)@, key),
    {
        if code_is_char(key, 'k') {
            self.queue_up();
        } else if code_is_char(key, 'j') {
            self.queue_down();
        } else if code_is_char(key, 'd') {
            self.remove_selected_queue_item();
        } else if code_is_char(key, 'x') {
            self.clear_queue();
        }
    }

    fn queue_up(&mut self)
        requires
            old(self).wf(),
        ensures
            final(self).wf(),
            final(self)@ == (AppModel { queue_cursor: step_up(old(self)@.queue_cursor), ..old(self)@ }),
    {
        let ghost m0 = self@;
        self.queue_cursor = if self.queue_cursor > 0 { self.queue_cursor - 1 } else { 0 };
        assert(self@ =~= (AppModel { queue_cursor: step_up(m0.queue_cursor), ..m0 }));
    }

    fn queue_down(&mut self)
        requires
            old(self).wf(),
        ensures
            final(self).wf(),
            final(self)@ == if old(self)@.queue.len() > 0 { AppModel { queue_cursor: step_down(old(self)@.queue_cursor, old(self)@.queue.len() as int), ..old(self)@ } } else { old(self)@ },
    {
        let ghost m0 = self@;
        if self.queue.len() > 0 {
            let last = self.queue.len() - 1;
            self.queue_cursor = if self.queue_cursor < last { self.queue_cursor + 1 } else { last };
            assert(self@ =~= (AppModel { queue_cursor: step_down(m0.queue_cursor, m0.queue.len() as int), ..m0 }));
        }
    }

    fn clear_queue(&mut self)
        requires
            old(self).wf(),
        ensures
            final(self).wf(),
            final(self)@ == (AppModel { queue: seq![], queue_cursor: 0, status_line: "Queue cleared"@, ..old(self)@ }),
    {
        let ghost m0 = self@;
        self.queue.clear();
        self.queue_cursor = 0;
        self.status_line = owned("Queue cleared");
        assert(self@.queue =~= Seq::<Seq<char>>::empty());
        assert(self@ =~= (AppModel { queue: seq![], queue_cursor: 0, status_line: "Queue cleared"@, ..m0 }));
    }

    fn move_queue_focus(&mut self, key: KeyInput)
        requires
            old(self).wf(),
            key.code == KeyCode::Tab || key.code == KeyCode::BackTab || key.code == KeyCode::Up || key.code == KeyCode::Down,
        ensures
            final(self).wf(),
            final(self)@ == queue_key_spec(old(self)@, key).0,
            queue_key_spec(old(self)@, key).1 == AppCommand::Nothing,
    {
        let ghost m0 = self@;
        if key.code == KeyCode::Tab || key.code == KeyCode::Down {
            self.queue_focus = next_queue_focus(self.queue_focus);
            assert(self@ =~= (AppModel { queue_focus: next_queue(m0.queue_focus), ..m0 }));
        } else {
            self.queue_focus = prev_queue_focus(self.queue_focus);
            assert(self@ =~= (AppModel { queue_focus: prev_queue(m0.queue_focus), ..m0 }));
        }
    }

    fn open_browse(&mut self)
        requires
            old(self).wf(),
        ensures
            final(self).wf(),
            final(self)@ == (AppModel { screen: Screen::Browse, browse_focus: BrowseFocus::Search, status_line: "Browse packages with fuzzy search"@, ..old(self)@ }),
    {
        let ghost m0 = self@;
        self.screen = Screen::Browse;
        self.browse_focus = BrowseFocus::Search;
        self.status_line = owned("Browse packages with fuzzy search");
        assert(self@ =~= (AppModel { screen: Screen::Browse, browse_focus: BrowseFocus::Search, status_line: "Browse packages with fuzzy search"@, ..m0 }));
    }

    fn toggle_dry_run(&mut self)
        requires
            old(self).wf(),
        ensures
            final(self).wf(),
            final(self)@ == (AppModel { dry_run: !old(self)@.dry_run, status_line: if !old(self)@.dry_run { "Dry-run enabled"@ } else { "Dry-run disabled"@ }, ..old(self)@ }),
    {
        let ghost m0 = self@;
        self.dry_run = !self.dry_run;
        self.status_line = if self.dry_run { owned("Dry-run enabled") } else { owned("Dry-run disabled") };
        assert(self@ =~= (AppModel { dry_run: !m0.dry_run, status_line: if !m0.dry_run { "Dry-run enabled"@ } else { "Dry-run disabled"@ }, ..m0 }));
    }

    #[verifier::rlimit(60)]
    #[verifier::spinoff_prover]
    fn on_queue_key(&mut self, key: KeyInput) -> (r: AppCommand)
        requires
            old(self).wf(),
        ensures
            final(self).wf(),
            (final(self)@, r) == queue_key_spec(old(self)@, key),
    {
        let ghost m0 = self@;
        if key.code == KeyCode::Tab || key.code == KeyCode::BackTab || key.code == KeyCode::Up || key.code == KeyCode::Down {
            self.move_queue_focus(key);
            return AppCommand::Nothing;
        }
        let plain_a = code_is_char(key, 'a') && !key.mods.shift && !key.mods.control && !key.mods.alt && !key.mods.other;
        if self.queue_focus == QueueFocus::Input && !key.mods.control && !key.mods.alt && !key.mods.other && !plain_a {
            if let KeyCode::Char(_) = key.code {
                assert(queue_key_spec(m0, key) == text_input_spec(m0, key));
                return self.handle_text_input_key(key);
            }
        }
        if code_is_char(key, 'b') {
            self.open_browse();
            return AppCommand::Nothing;
        }
        if code_is_char(key, 't') {
            self.toggle_dry_run();
            return AppCommand::Nothing;
        }
        if plain_a {
            self.add_from_manual_input();
            return AppCommand::Nothing;
        }
        match self.queue_focus {
            QueueFocus::Input => self.handle_text_input_key(key),
            QueueFocus::Priority => {
                self.handle_priority_key(key);
                AppCommand::Nothing
            },
            QueueFocus::Queue => {
                self.handle_queue_list_key(key);
                AppCommand::Nothing
            },
            QueueFocus::Install => {
                if key.code == KeyCode::Enter || code_is_char(key, ' ') {
                    AppCommand::StartInstall
                } else {
                    AppCommand::Nothing
                }
            },
        }
    }

    fn handle_search_key(&mut self, key: KeyInput)
        requires
            old(self).wf(),
        ensures
            final(self).wf(),
            final(self)@ == search_key_spec(old(self)@, key),
    {
        match key.code {
            KeyCode::Backspace => self.search_backspace(),
            KeyCode::Enter | KeyCode::Down => self.focus_results(),
            KeyCode::Char(ch) => {
                if !key.mods.control && !key.mods.alt && !key.mods.other {
                    self.search_type(ch);
                }
            },
            _ => {},
        }
    }

    fn search_backspace(&mut self)
        requires
            old(self).wf(),
        ensures
            final(self).wf(),
            final(self)@ == refresh_spec(AppModel { search_query: if old(self)@.search_query.len() > 0 { old(self)@.search_query.drop_last() } else { old(self)@.search_query }, ..old(self)@ }),
    {
        let ghost m0 = self@;
        let _ = self.search_query.pop();
        assert(self@ =~= (AppModel { search_query: if m0.search_query.len() > 0 { m0.search_query.drop_last() } else { m0.search_query }, ..m0 }));
        self.refresh_matches();
    }

    fn search_type(&mut self, ch: char)
        requires
            old(self).wf(),
        ensures
            final(self).wf(),
            final(self)@ == refresh_spec(AppModel { search_query: old(self)@.search_query.push(ch), ..old(self)@ }),
    {
        let ghost m0 = self@;
        self.search_query.push(ch);
        assert(self@ =~= (AppModel { search_query: m0.search_query.push(ch), ..m0 }));
        self.refresh_matches();
    }

    fn focus_results(&mut self)
        requires
            old(self).wf(),
        ensures
            final(self).wf(),
            final(self)@ == (AppModel { browse_focus: BrowseFocus::Results, ..old(self)@ }),
    {
        let ghost m0 = self@;
        self.browse_focus = BrowseFocus::Results;
        assert(self@ =~= (AppModel { browse_focus: BrowseFocus::Results, ..m0 }));
    }

    fn handle_result_list_key(&mut self, key: KeyInput)
        requires
            old(self).wf(),
        ensures
            final(self).wf(),
            final(self)@ == result_key_spec(old(self)@, key),
    {
        let ghost m0 = self@;
        if key.code == KeyCode::Up || code_is_char(key, 'k') {
            self.result_cursor = if self.result_cursor > 0 { self.result_cursor - 1 } else { 0 };
            assert(self@ =~= result_key_spec(m0, key));
        } else if key.code == KeyCode::Down || code_is_char(key, 'j') {
            if self.matches.len() > 0 {
                let last = self.matches.len() - 1;
                self.result_cursor = if self.result_cursor < last { self.result_cursor + 1 } else { last };
            }
            assert(self@ =~= result_key_spec(m0, key));
        } else if key.code == KeyCode::Enter || code_is_char(key, ' ') || code_is_char(key, 'a') {
            self.add_highlighted_result_to_queue();
        } else if code_is_char(key, 'd') {
            if self.result_cursor < self.matches.len() {
                let index = self.matches[self.result_cursor];
                assert(m0.matches[self.result_cursor as int] == index as int);
                if index < self.packages.len() {
                    let name = self.packages[index].name.clone();
                    self.remove_from_queue(name.as_str());
                }
            }
        }
    }

    #[verifier::rlimit(60)]
    fn on_browse_key(&mut self, key: KeyInput)
        requires
            old(self).wf(),
        ensures
            final(self).wf(),
            final(self)@ == browse_key_spec(old(self)@, key),
    {
        let ghost m0 = self@;
        if key.code == KeyCode::Tab || key.code == KeyCode::BackTab {
            self.browse_focus = if self.browse_focus == BrowseFocus::Search { BrowseFocus::Results } else { BrowseFocus::Search };
            assert(self@ =~= browse_key_spec(m0, key));
        } else if key.code == KeyCode::Esc {
            if !self.search_query.as_str().is_empty() {
                self.search_query = String::new();
                self.browse_focus = BrowseFocus::Search;
                let ghost m1 = self@;
                assert(m1 =~= (AppModel { search_query: seq![], browse_focus: BrowseFocus::Search, ..m0 }));
                assert(browse_key_spec(m0, key) == refresh_spec(m1));
                self.refresh_matches();
            } else {
                self.screen = Screen::Queue;
                self.browse_focus = BrowseFocus::Search;
                assert(self@ =~= browse_key_spec(m0, key));
            }
        } else if code_is_char(key, '/') {
            self.browse_focus = BrowseFocus::Search;
            assert(self@ =~= browse_key_spec(m0, key));
        } else {
            match self.browse_focus {
                BrowseFocus::Search => self.handle_search_key(key),
                BrowseFocus::Results => self.handle_result_list_key(key),
            }
        }
    }

    fn on_installing_key(&mut self, key: KeyInput) -> (r: AppCommand)
        requires
            old(self).wf(),
        ensures
            final(self).wf(),
            (final(self)@, r) == installing_key_spec(old(self)@, key),
    {
        let ghost m0 = self@;
        if key.code == KeyCode::Tab {
            self.install_focus = next_install_focus(self.install_focus);
            assert(self@ =~= installing_key_spec(m0, key).0);
            AppCommand::Nothing
        } else if key.code == KeyCode::BackTab {
            self.install_focus = prev_install_focus(self.install_focus);
            assert(self@ =~= installing_key_spec(m0, key).0);
            AppCommand::Nothing
        } else if code_is_char(key, 'c') {
            self.mark_abort_requested();
            AppCommand::Abort
        } else {
            AppCommand::Nothing
        }
    }

    fn on_done_key(&mut self, key: KeyInput)
        requires
            old(self).wf(),
        ensures
            final(self).wf(),
            final(self)@ == done_key_spec(old(self)@, key),
    {
        let ghost m0 = self@;
        if key.code == KeyCode::Tab {
            self.done_focus = next_done_focus(self.done_focus);
        } else if key.code == KeyCode::BackTab {
            self.done_focus = prev_done_focus(self.done_focus);
        } else if code_is_char(key, 'r') {
            self.screen = Screen::Queue;
            self.summary = None;
            self.done_focus = DoneFocus::Summary;
        } else if key.code == KeyCode::Enter {
            self.should_quit = true;
        }
        assert(self@ =~= done_key_spec(m0, key));
    }

    /// Reacts to a key press, see `on_key_spec`; the command says what the
    /// caller has to do besides.
    pub fn on_key(&mut self, key: KeyInput) -> (r: AppCommand)
        requires
            old(self).wf(),
        ensures
            final(self).wf(),
            (final(self)@, r) == on_key_spec(old(self)@, key),
    {
        if let Some(c) = self.handle_global_key(key) {
            return c;
        }
        match self.screen {
            Screen::Queue => self.on_queue_key(key),
            Screen::Browse => {
                self.on_browse_key(key);
                AppCommand::Nothing
            },
            Screen::Installing => self.on_installing_key(key),
            Screen::Done => {
                self.on_done_key(key);
                AppCommand::Nothing
            },
        }
    }
}

} // verus!
