use arch_package_tui::cli::{plan_headless, Cli, QueueAction};
use arch_package_tui::backend::BackendId;
use arch_package_tui::cli::removal_backend;

fn args(v: &[&str]) -> Vec<String> {
    v.iter().map(|s| s.to_string()).collect()
}

#[test]
fn headless_install_example_from_readme() {
    let cli = Cli::parse(&args(&["--install", "btop", "fastfetch", "ripgrep", "--no-tui"]));
    assert!(cli.no_tui);
    assert_eq!(cli.install, args(&["btop", "fastfetch", "ripgrep"]));
    assert!(cli.remove.is_empty());
    assert_eq!(cli.load_set, None);
}

#[test]
fn headless_remove_and_load_examples_from_readme() {
    let cli = Cli::parse(&args(&["--remove", "firefox", "--no-tui"]));
    assert_eq!(cli.remove, args(&["firefox"]));
    assert!(cli.no_tui);
    let cli = Cli::parse(&args(&["--load", "my-setup", "--no-tui"]));
    assert_eq!(cli.load_set, Some("my-setup".to_string()));
    assert!(cli.no_tui);
}

#[test]
fn package_lists_stop_at_a_dash_and_stray_words_are_skipped() {
    let cli = Cli::parse(&args(&["btop", "--install", "a", "-x", "b", "--remove", "c", "--install", "d"]));
    assert_eq!(cli.install, args(&["a", "d"]));
    assert_eq!(cli.remove, args(&["c"]));
    assert!(!cli.no_tui);
}

#[test]
fn load_takes_the_next_argument_whatever_it_is() {
    let cli = Cli::parse(&args(&["--load", "--install", "x"]));
    assert_eq!(cli.load_set, Some("--install".to_string()));
    assert!(cli.install.is_empty());
    let cli = Cli::parse(&args(&["--load"]));
    assert_eq!(cli.load_set, None);
}

#[test]
fn headless_plan_queues_installs_removals_and_set() {
    let cli = Cli::parse(&args(&["--install", "btop", "--remove", "firefox", "--load", "s"]));
    let plan = plan_headless(&cli, Some(args(&["zsh"])));
    let q: Vec<(String, QueueAction)> = plan.queue.iter().map(|i| (i.name.clone(), i.action)).collect();
    assert_eq!(
        q,
        vec![
            ("btop".to_string(), QueueAction::Install),
            ("firefox".to_string(), QueueAction::Remove),
            ("zsh".to_string(), QueueAction::Install),
        ]
    );
    assert!(plan.notes.is_empty());
}

#[test]
fn headless_plan_reports_missing_set_and_idle_run() {
    let cli = Cli::parse(&args(&["--load", "nope", "--no-tui"]));
    let plan = plan_headless(&cli, None);
    assert!(plan.queue.is_empty());
    assert_eq!(
        plan.notes,
        args(&["set not found: nope", "nothing to do: pass --install/--remove/--load with --no-tui"])
    );
}

#[test]
fn removals_go_to_the_first_present_backend_of_the_priority() {
    let p = vec![BackendId::Paru, BackendId::Pacman, BackendId::Yay, BackendId::Aura, BackendId::Trizen];
    assert_eq!(removal_backend(&p, [true, true, false, false, false]), Some(BackendId::Pacman));
    assert_eq!(removal_backend(&p, [true, true, true, false, false]), Some(BackendId::Paru));
    assert_eq!(removal_backend(&p, [false; 5]), None);
}
