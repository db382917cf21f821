use arch_package_tui::app::{App, Screen};
use arch_package_tui::backend::{create_backends, BackendId, CommandSpec, GenericBackend, PackageBackend};
use arch_package_tui::indexer::{aur_loading_message, build_index, check_pacman, loaded_message, IndexEvent};
use arch_package_tui::model::{priority_to_text, Manager, ManagerAvailability, RepoHint};
use arch_package_tui::art::{is_due, MatrixArt, STEP_PERIOD_MS, THEME_PERIOD_MS};

fn strings(v: &[&str]) -> Vec<String> {
    v.iter().map(|s| s.to_string()).collect()
}

#[test]
fn index_merges_sorted_and_tags_the_source() {
    let (records, official) = build_index(strings(&["nvtop", "btop", ""]), Some(strings(&["yay-bin", "btop"])));
    let names: Vec<&str> = records.iter().map(|r| r.name.as_str()).collect();
    assert_eq!(names, vec!["btop", "nvtop", "yay-bin"]);
    assert_eq!(records[0].repo, RepoHint::Both);
    assert_eq!(records[1].repo, RepoHint::Official);
    assert_eq!(records[2].repo, RepoHint::Aur);
    let mut o = official.clone();
    o.sort();
    assert_eq!(o, strings(&["btop", "nvtop"]));
}

#[test]
fn index_messages() {
    assert_eq!(aur_loading_message(Manager::Yay), "Loading AUR package index via yay...");
    assert_eq!(loaded_message(12), "Loaded 12 searchable packages");
}

#[test]
fn ready_index_feeds_the_search() {
    let (records, official) = build_index(strings(&["btop", "nvtop", "htop"]), None);
    let mut app = App::new();
    let availability = ManagerAvailability { pacman: true, yay: false, paru: false };
    app.tick(vec![IndexEvent::Ready { packages: records, official_set: official, availability }], Vec::new());
    assert!(app.index_ready);
    app.screen = Screen::Browse;
    app.search_query = "top".to_string();
    app.refresh_matches();
    for _ in 0..10 {
        app.tick(Vec::new(), Vec::new());
    }
    assert_eq!(app.search_result_count(), 3);
    app.search_query = "nv".to_string();
    app.refresh_matches();
    for _ in 0..10 {
        app.tick(Vec::new(), Vec::new());
    }
    assert_eq!(app.search_result_count(), 1);
    assert_eq!(app.packages[app.matches[0]].name, "nvtop");
}

#[test]
fn spinner_advances_each_tick() {
    let mut app = App::new();
    let first = app.spinner_tick;
    app.tick(Vec::new(), Vec::new());
    assert_eq!(app.spinner_tick, (first + 1) % 4);
}

#[test]
fn priority_and_availability_text() {
    assert_eq!(priority_to_text(&[Manager::Pacman, Manager::Yay, Manager::Paru]), "pacman -> yay -> paru");
    let a = ManagerAvailability { pacman: true, yay: false, paru: true };
    assert_eq!(a.aur_helper(), Some(Manager::Paru));
    assert!(a.available(Manager::Paru));
    assert!(!a.available(Manager::Yay));
}

#[test]
fn command_lines_of_backends() {
    let c = CommandSpec { program: "pacman".to_string(), args: strings(&["-Si", "btop"]) };
    assert_eq!(c.commandline(), "pacman -Si btop");
    let (backends, states) = create_backends([true, false, true, false, false]);
    assert_eq!(backends.len(), 5);
    assert_eq!(states[1].id, BackendId::Yay);
    assert!(!states[1].available);
    let yay = GenericBackend::new(BackendId::Yay, true);
    let spec = yay.install_spec(&strings(&["a"]));
    assert_eq!(spec.program, "yay");
    assert!(spec.args.contains(&"a".to_string()));
    assert_eq!(spec.args[0], "-S");
    let pacman = GenericBackend::new(BackendId::Pacman, true);
    let spec = pacman.sync_spec();
    assert_eq!(spec.commandline(), "sudo pacman -Sy");
}

#[test]
fn long_searches_run_one_batch_per_tick() {
    let names: Vec<String> = (0..2500).map(|i| format!("pkg{i:04}")).collect();
    let (records, official) = build_index(names, None);
    let mut app = App::new();
    let availability = ManagerAvailability { pacman: true, yay: false, paru: false };
    app.tick(vec![IndexEvent::Ready { packages: records, official_set: official, availability }], Vec::new());
    app.search_query = "pkg1".to_string();
    app.refresh_matches();
    assert!(app.search_loading);
    app.tick(Vec::new(), Vec::new());
    assert!(app.search_loading);
    app.tick(Vec::new(), Vec::new());
    assert!(app.search_loading);
    app.tick(Vec::new(), Vec::new());
    assert!(!app.search_loading);
    assert_eq!(app.search_result_count(), 500);
}

#[test]
fn a_search_over_1201_packages_takes_two_ticks() {
    let mut names: Vec<String> = (0..1200).map(|i| format!("lib{i:04}")).collect();
    names.push("zzbtop".to_string());
    let (records, official) = build_index(names, None);
    let mut app = App::new();
    let availability = ManagerAvailability { pacman: true, yay: false, paru: false };
    app.tick(vec![IndexEvent::Ready { packages: records, official_set: official, availability }], Vec::new());
    app.search_query = "BTOP".to_string();
    app.refresh_matches();
    assert!(app.search_loading && app.matches.is_empty());
    app.advance_search_job();
    assert!(app.search_loading && app.matches.is_empty());
    assert_eq!(app.search_job.as_ref().map(|j| j.cursor), Some(1200));
    app.advance_search_job();
    assert!(!app.search_loading);
    assert!(app.search_job.is_none());
    assert_eq!(app.matches, vec![1200]);
    app.advance_search_job();
    assert_eq!(app.matches, vec![1200]);
}

#[test]
fn indexing_needs_pacman() {
    let none = ManagerAvailability { pacman: false, yay: true, paru: true };
    assert_eq!(check_pacman(&none), Err("pacman was not found in PATH".to_string()));
    let some = ManagerAvailability { pacman: true, yay: false, paru: false };
    assert_eq!(check_pacman(&some), Ok(()));
}

#[test]
fn art_theme_rotates_after_ten_seconds_and_moves_after_120_ms() {
    assert_eq!(THEME_PERIOD_MS, 10_000);
    assert_eq!(STEP_PERIOD_MS, 120);
    assert!(!is_due(9_999, THEME_PERIOD_MS));
    assert!(is_due(10_000, THEME_PERIOD_MS));
    let mut art = MatrixArt::new();
    let f = art.frame_after(20, 10, 9_999, 0, std::time::Instant::now());
    assert_eq!(f.palette, 0);
    assert_eq!(f.lines.len(), 10);
    let f = art.frame_after(20, 10, 10_000, 0, std::time::Instant::now());
    assert_eq!(f.palette, 1);
    let f = art.frame_after(20, 10, 12_000, 500, std::time::Instant::now());
    assert_eq!(f.palette, 2);
    // Right after a change the timers have started again: the next frame by
    // the clock keeps the palette.
    let f = art.frame(20, 10);
    assert_eq!(f.palette, 2);
}
