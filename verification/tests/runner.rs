use std::collections::VecDeque;

use aur_pkg_manager::sandbox::runner::{
    append_activity, is_progress_stage, parse_makepkg_stage, summarize_build_line, BuildMonitor,
};
use aur_pkg_manager::ui::progress::{phase, stage_completion};

#[test]
fn keeps_a_rolling_log_of_recent_build_actions() {
    let mut activity = VecDeque::new();

    for line in [
        "Preparing source tree",
        "Updating crates.io index",
        "Downloading serde",
        "Compiling paru",
        "Finished release profile",
    ] {
        append_activity(&mut activity, line);
    }

    assert_eq!(
        activity.into_iter().collect::<Vec<_>>(),
        vec![
            "Updating crates.io index",
            "Downloading serde",
            "Compiling paru",
            "Finished release profile",
        ]
    );
}

#[test]
fn parses_user_facing_build_stages() {
    let cases = [
        ("==> Validating source files...", Some("validating")),
        ("==> Starting build()...", Some("building")),
        ("==> Starting check()...", Some("testing")),
        ("==> Compressing package...", Some("compressing")),
        ("==> Making package: demo 1.0-1 (Mon Jan 1)", None),
    ];

    for (line, expected) in cases {
        assert_eq!(parse_makepkg_stage(line), expected);
    }
}

#[test]
fn summarizes_compiler_activity_without_makepkg_headers() {
    assert_eq!(
        summarize_build_line("  cc -O2 src/main.c"),
        Some("cc -O2 src/main.c".into())
    );
    assert_eq!(summarize_build_line("==> Starting build()..."), None);
}

#[test]
fn repeated_action_is_logged_once() {
    let mut activity = VecDeque::new();
    append_activity(&mut activity, "Compiling paru");
    append_activity(&mut activity, "Compiling paru");
    assert_eq!(activity.len(), 1);
    append_activity(&mut activity, "Linking");
    append_activity(&mut activity, "Compiling paru");
    assert_eq!(
        activity.into_iter().collect::<Vec<_>>(),
        vec!["Compiling paru", "Linking", "Compiling paru"]
    );
}

#[test]
fn activity_log_never_grows_past_four_lines() {
    let mut activity = VecDeque::new();
    for i in 0..20 {
        append_activity(&mut activity, &format!("step {i}"));
        assert!(activity.len() <= 4);
        assert_eq!(activity.back().map(String::as_str), Some(format!("step {i}").as_str()));
    }
    assert_eq!(activity.front().map(String::as_str), Some("step 16"));
}

#[test]
fn names_sources_and_created_packages() {
    assert_eq!(parse_makepkg_stage("==> Retrieving sources...   foo.tar.gz"), Some("foo.tar.gz"));
    assert_eq!(parse_makepkg_stage("==> Retrieving sources..."), None);
    assert_eq!(parse_makepkg_stage("  -> Downloading foo.tar.gz..."), Some("foo.tar.gz..."));
    assert_eq!(parse_makepkg_stage("  -> Found bar.patch"), Some("bar.patch"));
    assert_eq!(parse_makepkg_stage("==> Creating package \"demo\"..."), Some("demo\"..."));
    assert_eq!(parse_makepkg_stage("==> Creating package \"demo\""), Some("demo"));
    assert_eq!(parse_makepkg_stage("==> Creating package"), Some(""));
    assert_eq!(parse_makepkg_stage("==> Extracting sources..."), Some("extracting"));
    assert_eq!(parse_makepkg_stage("==> Starting pkgver()..."), Some("resolving version"));
    assert_eq!(parse_makepkg_stage("==> Starting prepare()..."), Some("preparing"));
    assert_eq!(parse_makepkg_stage("==> Entering fakeroot environment..."), Some("packaging"));
    assert_eq!(parse_makepkg_stage("==> Starting package()..."), Some("packaging"));
    assert_eq!(parse_makepkg_stage("==> Tidying install..."), Some("tidying"));
    assert_eq!(parse_makepkg_stage("==> Generating .PKGINFO file..."), Some("generating metadata"));
    assert_eq!(parse_makepkg_stage("==> Generating .BUILDINFO file..."), Some("generating metadata"));
    assert_eq!(parse_makepkg_stage("==> Generating .MTREE file..."), Some("generating metadata"));
    assert_eq!(parse_makepkg_stage("==> Finished making: demo 1.0-1"), Some("done"));
    assert_eq!(parse_makepkg_stage("checking for gcc... yes"), None);
}

#[test]
fn long_build_lines_are_cut_with_an_ellipsis() {
    let line = "x".repeat(70);
    let summary = summarize_build_line(&line).unwrap();
    assert_eq!(summary, format!("{}...", "x".repeat(61)));
    assert_eq!(summary.chars().count(), 64);
    let exact = "y".repeat(64);
    assert_eq!(summarize_build_line(&exact), Some(exact.clone()));
    assert_eq!(summarize_build_line("   \t "), None);
}

#[test]
fn progress_stages_stay_out_of_the_log() {
    for stage in [
        "validating", "extracting", "resolving version", "preparing", "building", "testing",
        "packaging", "tidying", "compressing", "generating metadata", "done",
    ] {
        assert!(is_progress_stage(stage));
    }
    assert!(!is_progress_stage("foo.tar.gz"));
    assert!(!is_progress_stage(""));
}

#[test]
fn stages_map_to_completion() {
    assert_eq!(stage_completion(""), 0);
    assert_eq!(stage_completion("validating"), 20);
    assert_eq!(stage_completion("extracting"), 30);
    assert_eq!(stage_completion("resolving version"), 40);
    assert_eq!(stage_completion("preparing"), 50);
    assert_eq!(stage_completion("building"), 65);
    assert_eq!(stage_completion("testing"), 75);
    assert_eq!(stage_completion("packaging"), 85);
    assert_eq!(stage_completion("tidying"), 90);
    assert_eq!(stage_completion("compressing"), 95);
    assert_eq!(stage_completion("generating metadata"), 97);
    assert_eq!(stage_completion("done"), 100);
    assert_eq!(stage_completion("foo.tar.gz"), 10);
    assert_eq!(phase(""), "starting");
    assert_eq!(phase("building"), "building");
}

#[test]
fn monitor_follows_stages_and_keeps_output_for_failures() {
    let mut monitor = BuildMonitor::new();
    assert!(monitor.observe_line("==> Starting build()...", false));
    assert_eq!(monitor.current_status(), "building");
    assert!(monitor.activity().is_empty());
    assert!(!monitor.observe_line("  cc -O2 main.c", false));
    assert!(monitor.activity().is_empty());
    assert!(monitor.observe_line("  cc -O2 main.c", true));
    assert_eq!(monitor.activity().len(), 1);
    assert!(monitor.observe_line("  -> Found a.patch", false));
    assert_eq!(monitor.current_status(), "a.patch");
    assert_eq!(monitor.activity().back().map(String::as_str), Some("a.patch"));
    let output = "==> Starting build()...\n  cc -O2 main.c\n  cc -O2 main.c\n  -> Found a.patch\n";
    let mut failed = BuildMonitor::new();
    for line in output.lines() {
        failed.observe_line(line, true);
    }
    assert_eq!(failed.diagnostics(false), output);
    assert_eq!(monitor.diagnostics(true), "");
}

#[test]
fn summaries_are_short_and_never_headers() {
    for line in [
        "",
        "   ",
        "==> Making package",
        "  ==> Indented header",
        "make[1]: Entering directory",
        &"z".repeat(200),
        &format!("  {}  ", "w".repeat(64)),
    ] {
        if let Some(s) = summarize_build_line(line) {
            assert!(!s.is_empty());
            assert!(s.chars().count() <= 64);
            assert!(!s.starts_with("==>"));
        }
    }
    assert_eq!(summarize_build_line("  ==> Indented header"), None);
}

#[test]
fn monitor_log_stays_short_without_repeats() {
    let mut monitor = BuildMonitor::new();
    for line in ["a", "a", "b", "b", "c", "d", "e", "e", "f"] {
        monitor.observe_line(line, true);
        let log: Vec<&String> = monitor.activity().iter().collect();
        assert!(log.len() <= 4);
        assert!(log.windows(2).all(|w| w[0] != w[1]));
    }
    assert_eq!(monitor.activity().iter().collect::<Vec<_>>(), vec!["c", "d", "e", "f"]);
}

#[test]
fn stages_out_of_the_log_are_those_with_a_place_on_the_bar() {
    for stage in [
        "", "validating", "extracting", "resolving version", "preparing", "building", "testing",
        "packaging", "tidying", "compressing", "generating metadata", "done", "foo.tar.gz", "demo",
    ] {
        let place = stage_completion(stage);
        assert!(place <= 100);
        assert_eq!(is_progress_stage(stage), place != 0 && place != 10);
    }
}
