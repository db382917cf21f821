use arch_package_tui::installer::run::{InstallRun, RunOutput, RunRequest};
use arch_package_tui::installer::{
    check_arch_release, check_network, check_uid, log_line, preflight_result, log_path_in, start_message, InstallRequest,
};
use arch_package_tui::model::{priority_preset, Manager, ManagerAvailability};

struct Outcome {
    installed: usize,
    skipped: usize,
    failed: usize,
    unresolved: Vec<String>,
    aborted: bool,
    messages: Vec<String>,
    batches: Vec<(String, Vec<String>)>,
}

/// Drives a run against a simulated system: `present` is installed already,
/// a batch succeeds when every package in it is in `good`.
fn drive(request: InstallRequest, present: &[&str], good: &[&str], cancel_after_batches: Option<usize>) -> Outcome {
    let mut installed_now: Vec<String> = present.iter().map(|s| s.to_string()).collect();
    let (mut run, mut step) = InstallRun::begin(request.clone());
    let mut messages = Vec::new();
    let mut batches = Vec::new();
    let mut guard = 0;
    loop {
        guard += 1;
        assert!(guard < 10_000, "run does not finish");
        for out in &step.outputs {
            if let RunOutput::Message(m) = out {
                messages.push(m.clone());
            }
        }
        let cancelled = match cancel_after_batches {
            Some(n) => batches.len() >= n,
            None => false,
        };
        let answer = match &step.request {
            RunRequest::Finished(o) => {
                return Outcome {
                    installed: o.installed,
                    skipped: o.skipped,
                    failed: o.failed,
                    unresolved: o.unresolved.clone(),
                    aborted: o.aborted,
                    messages,
                    batches,
                };
            }
            RunRequest::Proceed => false,
            RunRequest::CheckInstalled(pkg) => installed_now.contains(pkg),
            RunRequest::RunBatch(cmd) => {
                let pkgs: Vec<String> = request
                    .packages
                    .iter()
                    .filter(|p| cmd.args.contains(p))
                    .cloned()
                    .collect();
                let manager = if cmd.program == "sudo" { cmd.args[0].clone() } else { cmd.program.clone() };
                batches.push((manager, pkgs.clone()));
                let ok = pkgs.iter().all(|p| good.contains(&p.as_str()));
                if ok {
                    for p in pkgs {
                        if !installed_now.contains(&p) {
                            installed_now.push(p);
                        }
                    }
                }
                ok
            }
        };
        step = run.step(cancelled, answer);
    }
}

fn request(packages: &[&str], official: &[&str], dry_run: bool) -> InstallRequest {
    InstallRequest {
        packages: packages.iter().map(|s| s.to_string()).collect(),
        priority: priority_preset(0),
        availability: ManagerAvailability { pacman: true, yay: true, paru: false },
        official_set: official.iter().map(|s| s.to_string()).collect(),
        dry_run,
    }
}

#[test]
fn failing_package_falls_through_and_ends_unresolved() {
    let out = drive(request(&["btop", "nvtop", "broken"], &["btop", "nvtop"], false), &[], &["btop", "nvtop"], None);
    assert_eq!(out.installed, 2);
    assert_eq!(out.skipped, 0);
    assert_eq!(out.failed, 1);
    assert_eq!(out.unresolved, vec!["broken".to_string()]);
    assert!(!out.aborted);
    assert_eq!(out.installed + out.skipped + out.failed, 3);
    assert!(out.messages.iter().any(|m| m == "warn: manager paru unavailable, skipping"));
}

#[test]
fn pacman_is_only_handed_official_packages() {
    let out = drive(request(&["btop", "aurthing", "nvtop"], &["btop", "nvtop"], false), &[], &["btop", "nvtop", "aurthing"], None);
    for (manager, pkgs) in &out.batches {
        if manager == "pacman" {
            assert!(pkgs.iter().all(|p| p == "btop" || p == "nvtop"));
        }
    }
    assert!(out.batches.iter().any(|(m, p)| m == "yay" && p == &vec!["aurthing".to_string()]));
    assert_eq!(out.installed, 3);
    assert_eq!(out.failed, 0);
}

#[test]
fn already_installed_packages_are_skipped() {
    let out = drive(request(&["btop", "nvtop"], &["btop", "nvtop"], false), &["btop"], &["nvtop"], None);
    assert_eq!(out.skipped, 1);
    assert_eq!(out.installed, 1);
    assert!(out.messages.iter().any(|m| m == "warn: skip btop (already installed)"));
}

#[test]
fn batch_failure_is_split_to_isolate_the_broken_package() {
    let out = drive(request(&["a", "b", "c", "d"], &["a", "b", "c", "d"], false), &[], &["a", "b", "d"], None);
    assert_eq!(out.installed, 3);
    assert_eq!(out.failed, 1);
    assert_eq!(out.unresolved, vec!["c".to_string()]);
    assert!(out.messages.iter().any(|m| m == "error: batch failed pacman package=c"));
}

#[test]
fn dry_run_marks_everything_without_running_batches() {
    let out = drive(request(&["btop", "aurthing"], &["btop"], true), &[], &[], None);
    assert!(out.batches.is_empty());
    assert_eq!(out.installed, 2);
    assert_eq!(out.failed, 0);
    assert_eq!(out.messages[0], "warn: dry-run mode enabled");
    assert!(out.messages.iter().any(|m| m == "ok: dry-run pacman btop"));
    assert!(out.messages.iter().any(|m| m == "ok: dry-run yay aurthing"));
}

#[test]
fn abort_stops_further_managers() {
    let out = drive(request(&["broken"], &["broken"], false), &[], &[], Some(1));
    assert!(out.aborted);
    assert_eq!(out.failed, 1);
    assert!(out.messages.iter().any(|m| m == "warn: abort requested; stopping further managers"));
}

#[test]
fn duplicate_and_invalid_requests_are_normalized() {
    let out = drive(request(&["btop", " btop ", "!!"], &["btop"], false), &[], &["btop"], None);
    assert_eq!(out.installed + out.skipped + out.failed, 1);
}

#[test]
fn start_message_names_count_priority_and_mode() {
    let r = request(&["a", "b", "c"], &[], false);
    assert_eq!(start_message(&r), "info: start install packages=3 priority=[Pacman, Yay, Paru] dry_run=false");
    let p: [Manager; 3] = priority_preset(0);
    assert_eq!(p, [Manager::Pacman, Manager::Yay, Manager::Paru]);
}

#[test]
fn preflight_checks_report_each_refusal() {
    assert_eq!(check_arch_release(true), Ok(()));
    assert_eq!(check_arch_release(false), Err("this installer is for Arch Linux only".to_string()));
    assert_eq!(check_uid("1000\n"), Ok(()));
    assert_eq!(check_uid(" 0\n"), Err("run as non-root user".to_string()));
    assert_eq!(check_network(true), Ok(()));
    assert_eq!(check_network(false), Err("internet check failed (cannot ping archlinux.org)".to_string()));
}

#[test]
fn log_lines_and_log_path() {
    assert_eq!(log_line("12:00:01", "ok: done"), "[12:00:01] ok: done");
    assert_eq!(
        log_path_in(Some("/home/al".to_string()), 1700000000),
        "/home/al/.cache/arch-package-tui/install-1700000000.log"
    );
    assert_eq!(log_path_in(None, 0), "/tmp/.cache/arch-package-tui/install-0.log");
    assert_eq!(log_path_in(Some("/".to_string()), 7), "/.cache/arch-package-tui/install-7.log");
}

#[test]
fn preflight_reports_the_first_failing_check() {
    assert_eq!(preflight_result(true, "1000\n", true), Ok(()));
    assert_eq!(
        preflight_result(false, "0", false),
        Err("this installer is for Arch Linux only".to_string())
    );
    assert_eq!(preflight_result(true, " 0\n", false), Err("run as non-root user".to_string()));
    assert_eq!(
        preflight_result(true, "1000", false),
        Err("internet check failed (cannot ping archlinux.org)".to_string())
    );
}
