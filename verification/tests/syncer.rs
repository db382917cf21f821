use arch_package_tui::syncer::{
    aur_record, aur_search_url, parse_expac_output, parse_name_set, parse_pacman_fallback, parse_upgrades,
    sync_packages, RepoKind,
};
use arch_package_tui::syncer::{aur_event, AurEvent, AurItem, AurReply};

const EXPAC: &str = "btop\t1.3-1\tA monitor\t1024\textra\n\nshort\tline\nnvtop\t3.0\t GPU top \tabc\textra\n";

#[test]
fn expac_lines_become_records() {
    let r = parse_expac_output(EXPAC);
    assert_eq!(r.len(), 2);
    assert_eq!(r[0].name, "btop");
    assert_eq!(r[0].version, "1.3-1");
    assert_eq!(r[0].description, "A monitor");
    assert_eq!(r[0].size_bytes, 1024);
    assert_eq!(r[0].repo, "extra");
    assert_eq!(r[0].repo_kind, RepoKind::Official);
    assert!(!r[0].installed && !r[0].upgradable);
    assert_eq!(r[0].new_version, None);
    assert_eq!(r[0].updated_at, 0);
    assert_eq!(r[1].name, "nvtop");
    assert_eq!(r[1].description, "GPU top");
    assert_eq!(r[1].size_bytes, 0);
}

#[test]
fn expac_size_reads_signs_and_rejects_overflow() {
    let r = parse_expac_output("a\t1\td\t-5\tx\nb\t1\td\t+7\tx\nc\t1\td\t99999999999999999999\tx\r\n");
    assert_eq!(r[0].size_bytes, -5);
    assert_eq!(r[1].size_bytes, 7);
    assert_eq!(r[2].size_bytes, 0);
    assert_eq!(r[2].repo, "x");
}

#[test]
fn pacman_listing_lines_become_records() {
    let r = parse_pacman_fallback("core bash 5.2-1 [installed]\nextra btop 1.3\nbad line\nextra foo 1 a b  c\n");
    assert_eq!(r.len(), 3);
    assert_eq!(r[0].repo, "core");
    assert_eq!(r[0].name, "bash");
    assert_eq!(r[0].version, "5.2-1");
    assert_eq!(r[0].description, "[installed]");
    assert_eq!(r[1].description, "");
    assert_eq!(r[2].description, "a b c");
}

#[test]
fn installed_names_form_a_set() {
    assert_eq!(parse_name_set("btop\n  nvtop \n\nbtop\n"), vec!["btop", "nvtop"]);
    assert!(parse_name_set("\n \n").is_empty());
}

#[test]
fn upgrade_table_keeps_each_package_once_with_its_last_version() {
    let t = parse_upgrades("btop 1.2 -> 1.3\nnvtop 3.1\nbtop 1.2 -> 1.4\nx\n");
    assert_eq!(
        t,
        vec![("btop".to_string(), "1.4".to_string()), ("nvtop".to_string(), "3.1".to_string())]
    );
}

#[test]
fn sync_marks_installed_and_upgradable_packages() {
    let r = sync_packages(EXPAC, true, "btop\n", "btop 1.2 -> 1.3\n", 42);
    assert_eq!(r.len(), 2);
    assert!(r[0].installed);
    assert!(r[0].upgradable);
    assert_eq!(r[0].new_version, Some("1.3".to_string()));
    assert_eq!(r[0].updated_at, 42);
    assert!(!r[1].installed);
    assert!(!r[1].upgradable);
    assert_eq!(r[1].new_version, None);
    assert_eq!(r[1].updated_at, 42);
}

#[test]
fn sync_from_pacman_listing() {
    let r = sync_packages("extra btop 1.3\n", false, "", "", 7);
    assert_eq!(r.len(), 1);
    assert_eq!(r[0].name, "btop");
    assert!(!r[0].installed);
    assert_eq!(r[0].updated_at, 7);
}

#[test]
fn aur_search_needs_three_bytes() {
    assert_eq!(aur_search_url("ab"), None);
    assert_eq!(
        aur_search_url("btop"),
        Some("https://aur.archlinux.org/rpc/v5/search/btop?by=name".to_string())
    );
}

#[test]
fn aur_results_become_aur_records() {
    let r = aur_record("yay-bin".to_string(), "12.0".to_string(), None, 5);
    assert_eq!(r.repo, "aur");
    assert_eq!(r.description, "");
    assert_eq!(r.repo_kind, RepoKind::Aur);
    assert_eq!(r.updated_at, 5);
    let r = aur_record("x".to_string(), "1".to_string(), Some("desc".to_string()), 0);
    assert_eq!(r.description, "desc");
}

#[test]
fn aur_failures_become_one_warning() {
    match aur_event("btop".to_string(), AurReply::RequestFailed("timeout".to_string()), 1) {
        AurEvent::Warning(w) => assert_eq!(w, "aur query failed: timeout"),
        other => panic!("unexpected {other:?}"),
    }
    match aur_event("btop".to_string(), AurReply::ParseFailed("bad json".to_string()), 1) {
        AurEvent::Warning(w) => assert_eq!(w, "aur parse failed: bad json"),
        other => panic!("unexpected {other:?}"),
    }
}

#[test]
fn aur_results_become_records_for_the_query() {
    let items = vec![
        AurItem { name: "yay-bin".to_string(), version: "12".to_string(), description: None },
        AurItem { name: "paru".to_string(), version: "2".to_string(), description: Some("helper".to_string()) },
    ];
    match aur_event("ya".to_string(), AurReply::Items(items), 9) {
        AurEvent::Results { query, packages } => {
            assert_eq!(query, "ya");
            assert_eq!(packages.len(), 2);
            assert_eq!(packages[0].name, "yay-bin");
            assert_eq!(packages[1].description, "helper");
            assert!(packages.iter().all(|p| p.repo == "aur" && p.repo_kind == RepoKind::Aur && p.updated_at == 9));
        }
        other => panic!("unexpected {other:?}"),
    }
}
