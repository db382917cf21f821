use arch_package_tui::backend::BackendId;
use arch_package_tui::config::{
    cache_dir_in, config_dir_in, config_path, join_path, join_path_bytes, parse_backend_id, parse_backend_priority, sets_path,
    AppConfig, BackendConfig, BehaviorConfig, SavedSets, UiConfig,
};
use arch_package_tui::db::{db_path, now_ts, timestamp_of};

fn strings(v: &[&str]) -> Vec<String> {
    v.iter().map(|s| s.to_string()).collect()
}

#[test]
fn priority_starts_with_named_backends_and_lists_every_backend_once() {
    let p = parse_backend_priority(&strings(&["paru", "bogus", "PACMAN", "paru"]));
    assert_eq!(
        p,
        vec![BackendId::Paru, BackendId::Pacman, BackendId::Yay, BackendId::Aura, BackendId::Trizen]
    );
}

#[test]
fn empty_priority_gives_default_order() {
    let p = parse_backend_priority(&[]);
    assert_eq!(
        p,
        vec![BackendId::Pacman, BackendId::Yay, BackendId::Paru, BackendId::Aura, BackendId::Trizen]
    );
}

#[test]
fn backend_names_ignore_case() {
    assert_eq!(parse_backend_id("YaY"), Some(BackendId::Yay));
    assert_eq!(parse_backend_id("pamac"), None);
}

#[test]
fn default_config_has_documented_values() {
    let c = AppConfig::default();
    assert_eq!(c.backend.priority, strings(&["pacman", "yay", "paru"]));
    assert_eq!(c.ui.theme, "arch-dark");
    assert!(c.ui.show_sizes);
    assert_eq!(c.ui.date_format, "%H:%M:%S");
    assert!(c.behavior.confirm_on_quit);
    assert!(c.behavior.auto_sync_on_start);
    assert_eq!(c.behavior.cache_ttl_hours, 4);
    assert!(c.keybinds.is_empty());
}

#[test]
fn empty_tables_default_to_zero_values() {
    assert!(BackendConfig::default().priority.is_empty());
    let u = UiConfig::default();
    assert!(u.theme.is_empty() && !u.show_sizes && u.date_format.is_empty());
    let b = BehaviorConfig::default();
    assert!(!b.confirm_on_quit && !b.auto_sync_on_start && b.cache_ttl_hours == 0);
    assert!(SavedSets::default().sets.is_empty());
}

#[test]
fn paths_join_like_pathbuf() {
    assert_eq!(join_path("/home/a", "x"), "/home/a/x");
    assert_eq!(join_path("/home/a/", "x"), "/home/a/x");
    assert_eq!(join_path("", "x"), "x");
    assert_eq!(join_path_bytes(b"/home/a", b"x"), b"/home/a/x".to_vec());
    assert_eq!(join_path_bytes(b"", b"x"), b"x".to_vec());
    assert_eq!(config_dir_in(Some(b"/home/al".to_vec())), b"/home/al/.config/arch-package-tui".to_vec());
    assert_eq!(config_dir_in(None), b"/tmp/.config/arch-package-tui".to_vec());
    assert_eq!(cache_dir_in(Some(b"/home/al/".to_vec())), b"/home/al/.cache/arch-package-tui".to_vec());
}

#[test]
fn a_home_that_is_not_utf8_keeps_its_bytes() {
    let home = vec![b'/', b'h', 0xff, 0xfe];
    let mut expected = home.clone();
    expected.extend_from_slice(b"/.config/arch-package-tui");
    assert_eq!(config_dir_in(Some(home)), expected);
}

#[test]
fn file_paths_sit_in_the_app_directories() {
    assert!(config_path().ends_with(b"/.config/arch-package-tui/config.toml"));
    assert!(sets_path().ends_with(b"/.config/arch-package-tui/sets.toml"));
    assert!(db_path().ends_with(b"/.cache/arch-package-tui/pkgdb.sqlite"));
}

#[test]
fn timestamps() {
    assert_eq!(timestamp_of(None), 0);
    assert_eq!(timestamp_of(Some(5)), 5);
    assert_eq!(timestamp_of(Some(u64::MAX)), -1);
    assert!(now_ts() > 1_500_000_000);
}

#[test]
fn backend_names_in_upper_case_are_read_too() {
    assert_eq!(parse_backend_id("PACMAN"), Some(BackendId::Pacman));
    assert_eq!(parse_backend_id("Trizen"), parse_backend_id("trizen"));
}
