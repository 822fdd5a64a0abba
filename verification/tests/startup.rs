use serylane::startup::{
    login_migration, ready_timeout_seconds, removable_entry, tun_start_failure, LogLine,
};
use serylane::startup::{
    installer_cleanup_requested, owns_legacy_entry, quoted_login_command, show_initial_window,
    AppSettings, AUTOSTART_ARG,
};
use std::path::{Path, MAIN_SEPARATOR};

fn owns(command: &str, executable: &Path) -> bool {
    owns_legacy_entry(command, executable.to_str().unwrap(), MAIN_SEPARATOR)
}

#[test]
fn uninstall_command_is_exact_and_never_matches_normal_launch() {
    assert!(installer_cleanup_requested(&["--installer-remove-login".into()]));
    assert!(!installer_cleanup_requested(&[]));
    assert!(!installer_cleanup_requested(&[AUTOSTART_ARG.into()]));
    assert!(!installer_cleanup_requested(&["--installer-remove-login-other".into()]));
    assert!(!installer_cleanup_requested(&[
        "--installer-remove-login".into(),
        "extra".into()
    ]));
}

#[test]
fn silent_login_does_not_hide_manual_launch() {
    let mut settings = AppSettings::default();
    assert!(show_initial_window(&settings, &[AUTOSTART_ARG.into()]));
    settings.silent_startup = true;
    assert!(!show_initial_window(&settings, &[AUTOSTART_ARG.into()]));
    assert!(show_initial_window(&settings, &[]));
    assert!(show_initial_window(&settings, &["--autostart-unknown".into()]));
}

#[test]
fn migration_matches_exact_owned_executable_not_prefixes_or_other_copies() {
    let directory = Path::new("fixture").join("app");
    let current = directory.join("serylane.exe");
    let old = format!("\"{}\"", directory.join("routedeck.exe").display());
    assert!(owns(&old, &current));
    assert!(owns(&format!("{old} --autostart"), &current));
    assert!(!owns(&format!("{old} --unexpected"), &current));
    assert!(!owns("\"other/routedeck.exe\"", &current));
    let current_command = format!("\"{}\" {AUTOSTART_ARG}", current.display());
    assert!(owns(&current_command, &current));
    assert!(!owns(&format!("{current_command} extra"), &current));
}

#[test]
fn old_unquoted_login_paths_with_spaces_are_normalized_without_extra_arguments() {
    let directory = Path::new("fixture").join("Program Files");
    let current = directory.join("serylane.exe");
    let old = directory.join("routedeck.exe").display().to_string();
    for command in [&old, &format!("{old} "), &format!("{old} {AUTOSTART_ARG}")] {
        assert!(owns(command, &current));
    }
    assert_eq!(
        quoted_login_command(&current.display().to_string()),
        format!("\"{}\" --autostart", current.display())
    );
    assert!(!owns(&format!("{old}.other --autostart"), &current));
    assert!(!owns(&format!("{old} --autostart extra"), &current));
    assert!(!owns(&format!("{old} --other"), &current));
}

#[test]
fn ownership_ignores_ascii_case_and_needs_an_executable() {
    let current = Path::new("C").join("Apps").join("serylane.exe");
    let upper = format!("\"{}\"", current.display()).to_ascii_uppercase();
    assert!(owns(&upper, &current));
    assert!(!owns_legacy_entry("routedeck.exe", "", MAIN_SEPARATOR));
    assert!(owns_legacy_entry("routedeck.exe --autostart", "serylane.exe", MAIN_SEPARATOR));
}

#[test]
fn login_migration_only_touches_owned_entries() {
    let sep = MAIN_SEPARATOR;
    let dir = format!("{sep}opt{sep}app");
    let exe = format!("{dir}{sep}serylane.exe");
    let old = format!("{dir}{sep}routedeck.exe");
    let legacy = Some(format!("{old} {AUTOSTART_ARG}"));
    let plan = login_migration(&None, &legacy, true, &exe, sep);
    assert!(!plan.rewrite_current && plan.migrate_legacy && plan.enable_current);
    let disabled = login_migration(&None, &legacy, false, &exe, sep);
    assert!(disabled.migrate_legacy && !disabled.enable_current);
    let other = Some(format!("{sep}elsewhere{sep}serylane.exe"));
    let untouched = login_migration(&other, &legacy, true, &exe, sep);
    assert!(!untouched.rewrite_current && !untouched.migrate_legacy && !untouched.enable_current);
    let current = Some(format!("\"{exe}\" {AUTOSTART_ARG}"));
    let normal = login_migration(&current, &None, true, &exe, sep);
    assert!(normal.rewrite_current && !normal.migrate_legacy);
    assert!(removable_entry(&current, &exe, sep));
    assert!(!removable_entry(&other, &exe, sep));
    assert!(!removable_entry(&None, &exe, sep));
}

#[test]
fn sibling_paths_accept_both_separators_and_doubled_ones() {
    assert!(owns_legacy_entry("C:\\Apps\\routedeck.exe --autostart", "C:\\Apps/serylane.exe", '\\'));
    assert!(owns_legacy_entry("\"C:/Apps\\serylane.exe\" --autostart", "C:/Apps//serylane.exe", '\\'));
    assert!(owns_legacy_entry("/opt//app/routedeck.exe", "/opt//app//serylane.exe", '/'));
    assert!(!owns_legacy_entry("/opt//app//routedeck.exe", "/opt//app//serylane.exe", '/'));
    assert!(owns_legacy_entry("/routedeck.exe", "//serylane.exe", '/'));
}

fn line(timestamp: u64, level: &str, message: &str) -> LogLine {
    LogLine { timestamp, level: level.to_string(), message: message.to_string() }
}

#[test]
fn tun_starts_wait_longer_and_stop_on_the_newest_tun_error() {
    assert_eq!(ready_timeout_seconds(true), 30);
    assert_eq!(ready_timeout_seconds(false), 8);
    let logs = vec![
        line(5, "error", "TUN device busy before start"),
        line(10, "error", "Start TUN listening error: Permission Denied"),
        line(11, "warning", "route table changed"),
        line(12, "error", "dial tcp: timeout"),
        line(13, "error", "add ROUTE failed"),
        line(14, "info", "tun ready"),
    ];
    assert_eq!(tun_start_failure(&logs, Some(10)).as_deref(), Some("add ROUTE failed"));
    assert_eq!(
        tun_start_failure(&logs[..3].to_vec(), Some(10)).as_deref(),
        Some("Start TUN listening error: Permission Denied")
    );
    assert_eq!(tun_start_failure(&logs, Some(20)), None);
    assert_eq!(tun_start_failure(&logs, None), None);
}
