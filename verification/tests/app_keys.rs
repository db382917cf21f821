use arch_package_tui::app::input::{AppCommand, KeyCode, KeyInput};
use arch_package_tui::app::focus::{
    next_done_focus, next_install_focus, next_queue_focus, prev_done_focus, prev_install_focus, prev_queue_focus,
};
use arch_package_tui::app::{App, BrowseFocus, DoneFocus, InstallFocus, QueueFocus, Screen};
use arch_package_tui::indexer::{build_index, IndexEvent};
use arch_package_tui::model::ManagerAvailability;

fn key(c: char) -> KeyInput {
    KeyInput::plain(KeyCode::Char(c))
}

#[test]
fn typing_i_in_input_does_not_trigger_global_install_shortcut() {
    let mut app = App::new();
    app.screen = Screen::Queue;
    app.queue_focus = QueueFocus::Input;

    let cmd = app.on_key(key('i'));
    assert_eq!(app.manual_input, "i");
    assert!(!app.install_active());
    assert_eq!(cmd, AppCommand::Nothing);
}

#[test]
fn typing_q_in_search_does_not_quit() {
    let mut app = App::new();
    app.screen = Screen::Browse;
    app.browse_focus = BrowseFocus::Search;

    app.on_key(key('q'));
    assert_eq!(app.search_query, "q");
    assert!(!app.should_quit);
}

#[test]
fn manual_input_is_added_sorted_without_duplicates() {
    let mut app = App::new();
    app.manual_input = "nvtop,btop btop fastfetch".to_string();
    app.add_from_manual_input();
    assert_eq!(app.queue, vec!["btop", "fastfetch", "nvtop"]);
    assert_eq!(app.status_line, "Added 3 package(s) to queue");
    assert!(app.manual_input.is_empty());

    app.manual_input = "btop zsh".to_string();
    app.add_from_manual_input();
    assert_eq!(app.queue, vec!["btop", "fastfetch", "nvtop", "zsh"]);
    assert_eq!(app.status_line, "Added 1 package(s) to queue");
}

#[test]
fn manual_input_without_names_warns() {
    let mut app = App::new();
    app.manual_input = " !!! ".to_string();
    app.add_from_manual_input();
    assert!(app.queue.is_empty());
    assert_eq!(app.active_warning(), Some("No valid package names found in input".to_string()).as_deref());
}

#[test]
fn removing_a_package_just_added_restores_the_queue() {
    let mut app = App::new();
    app.manual_input = "btop nvtop".to_string();
    app.add_from_manual_input();
    let before = app.queue.clone();
    app.manual_input = "htop".to_string();
    app.add_from_manual_input();
    assert!(app.queue_contains("htop"));
    app.remove_from_queue("htop");
    assert_eq!(app.queue, before);
}

#[test]
fn start_install_with_empty_queue_is_refused() {
    let mut app = App::new();
    assert!(app.start_install(true).is_none());
    assert!(!app.install_active());
}

#[test]
fn quit_key_on_queue_list_quits() {
    let mut app = App::new();
    app.queue_focus = QueueFocus::Queue;
    app.on_key(key('q'));
    assert!(app.should_quit);
}

#[test]
fn focus_cycles_return_to_the_start() {
    let mut q = QueueFocus::Input;
    for _ in 0..4 {
        assert_eq!(prev_queue_focus(next_queue_focus(q)), q);
        q = next_queue_focus(q);
    }
    assert_eq!(q, QueueFocus::Input);
    let mut i = InstallFocus::Progress;
    for _ in 0..3 {
        assert_eq!(prev_install_focus(next_install_focus(i)), i);
        i = next_install_focus(i);
    }
    assert_eq!(i, InstallFocus::Progress);
    assert_eq!(next_done_focus(next_done_focus(DoneFocus::Summary)), DoneFocus::Summary);
    assert_eq!(prev_done_focus(DoneFocus::Summary), DoneFocus::Unresolved);
}

fn queued_app(names: &str) -> App {
    let mut app = App::new();
    app.manual_input = names.to_string();
    app.add_from_manual_input();
    app
}

#[test]
fn start_install_waits_for_the_index() {
    let mut app = queued_app("btop");
    assert!(app.start_install(true).is_none());
    assert_eq!(app.active_warning(), Some("Package index still loading"));
    assert_eq!(app.status_line, "Package index still loading");
}

#[test]
fn start_install_needs_a_sudo_session_outside_dry_run() {
    let mut app = queued_app("btop");
    app.index_ready = true;
    assert!(app.needs_sudo_probe());
    assert!(app.start_install(false).is_none());
    assert_eq!(app.active_warning(), Some("Run sudo -v before installing"));
    assert_eq!(app.status_line, "Sudo session not active. Run sudo -v");
    assert_eq!(app.logs.back().map(|e| e.text.as_str()), Some("warn: sudo auth required before install; run sudo -v"));
}

#[test]
fn dry_run_install_starts_without_sudo() {
    let mut app = queued_app("nvtop btop");
    app.index_ready = true;
    app.dry_run = true;
    assert!(!app.needs_sudo_probe());
    let request = app.start_install(false).expect("install starts");
    assert_eq!(request.packages, vec!["btop".to_string(), "nvtop".to_string()]);
    assert!(request.dry_run);
    assert!(app.install_active());
    assert_eq!(app.screen, Screen::Installing);
    assert_eq!(app.progress.total, 2);
    assert_eq!(app.progress.stage, "Starting installer");
    assert!(app.start_install(false).is_none());
}

#[test]
fn letters_typed_into_the_manual_input_stay_there() {
    let mut app = App::new();
    for c in "btop nvtop".chars() {
        app.on_key(key(c));
    }
    assert_eq!(app.manual_input, "btop nvtop");
    assert_eq!(app.screen, Screen::Queue);
    assert!(!app.dry_run);
    assert!(app.queue.is_empty());
    app.on_key(KeyInput::plain(KeyCode::Enter));
    assert_eq!(app.queue, vec!["btop", "nvtop"]);
}

#[test]
fn a_in_the_manual_input_adds_the_list() {
    let mut app = App::new();
    for c in "zsh btop".chars() {
        app.on_key(key(c));
    }
    let cmd = app.on_key(key('a'));
    assert_eq!(cmd, AppCommand::Nothing);
    assert_eq!(app.queue, vec!["btop", "zsh"]);
    let mut shifted = key('A');
    shifted.mods.shift = true;
    app.on_key(shifted);
    assert_eq!(app.manual_input, "A");
}

#[test]
fn up_and_down_move_the_queue_focus() {
    let mut app = App::new();
    assert_eq!(app.queue_focus, QueueFocus::Input);
    app.on_key(KeyInput::plain(KeyCode::Down));
    assert_eq!(app.queue_focus, QueueFocus::Priority);
    app.on_key(KeyInput::plain(KeyCode::Down));
    assert_eq!(app.queue_focus, QueueFocus::Queue);
    app.on_key(KeyInput::plain(KeyCode::Up));
    assert_eq!(app.queue_focus, QueueFocus::Priority);
    app.on_key(KeyInput::plain(KeyCode::Up));
    app.on_key(KeyInput::plain(KeyCode::Up));
    assert_eq!(app.queue_focus, QueueFocus::Install);
}

#[test]
fn j_and_k_move_the_queue_cursor() {
    let mut app = queued_app("btop nvtop zsh");
    app.queue_focus = QueueFocus::Queue;
    app.on_key(key('j'));
    app.on_key(key('j'));
    app.on_key(key('j'));
    assert_eq!(app.queue_cursor, 2);
    app.on_key(key('k'));
    assert_eq!(app.queue_cursor, 1);
    assert_eq!(app.queue_focus, QueueFocus::Queue);
}

#[test]
fn dry_run_toggle_twice_restores_it() {
    let mut app = App::new();
    app.queue_focus = QueueFocus::Queue;
    app.on_key(key('t'));
    assert!(app.dry_run);
    assert_eq!(app.status_line, "Dry-run enabled");
    app.on_key(key('t'));
    assert!(!app.dry_run);
    assert_eq!(app.status_line, "Dry-run disabled");
    assert_eq!(app.screen, Screen::Queue);
}

#[test]
fn priority_row_cycles_both_ways() {
    let mut app = App::new();
    app.queue_focus = QueueFocus::Priority;
    let first = app.priority_text();
    app.on_key(KeyInput::plain(KeyCode::Left));
    assert_eq!(app.priority_idx, 3);
    app.on_key(KeyInput::plain(KeyCode::Right));
    assert_eq!(app.priority_idx, 0);
    assert_eq!(app.priority_text(), first);
    app.on_key(key('l'));
    assert_eq!(app.priority_idx, 1);
    app.on_key(key('h'));
    assert_eq!(app.priority_idx, 0);
}

#[test]
fn escape_in_browse_clears_the_query_then_goes_back() {
    let names: Vec<String> = vec!["btop".to_string(), "nvtop".to_string(), "htop".to_string()];
    let (records, official) = build_index(names, None);
    let mut app = App::new();
    let availability = ManagerAvailability { pacman: true, yay: false, paru: false };
    app.tick(vec![IndexEvent::Ready { packages: records, official_set: official, availability }], Vec::new());
    app.queue_focus = QueueFocus::Queue;
    app.on_key(key('2'));
    assert_eq!(app.screen, Screen::Browse);
    for c in "nv".chars() {
        app.on_key(key(c));
    }
    for _ in 0..3 {
        app.tick(Vec::new(), Vec::new());
    }
    assert_eq!(app.search_result_count(), 1);
    app.on_key(KeyInput::plain(KeyCode::Esc));
    assert_eq!(app.search_query, "");
    assert_eq!(app.screen, Screen::Browse);
    assert_eq!(app.matches, vec![0, 1, 2]);
    assert_eq!(app.result_cursor, 0);
    app.on_key(KeyInput::plain(KeyCode::Esc));
    assert_eq!(app.screen, Screen::Queue);
}
