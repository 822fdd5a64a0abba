use serylane::program_proxy::{
    canonical_executable, check_revision, check_working_directory, launch_arguments,
    local_windows_path, normalize_input, proxy_endpoint_text, proxy_environment,
    remove_program, update_document, validate_fields, ProgramDocument, ProgramInput,
    ProgramProxyMode, ProxyProgram,
};
use uuid::Uuid;

fn entry() -> ProxyProgram {
    ProxyProgram {
        id: Uuid::new_v4().as_u128(),
        name: "示例".into(),
        executable: "C:\\Program Files\\Example\\app.exe".into(),
        arguments: vec![
            "an argument with spaces".into(),
            "& not-a-shell-command".into(),
        ],
        working_directory: None,
        mode: ProgramProxyMode::Environment,
    }
}

#[test]
fn validation_rejects_unknown_versions_duplicates_and_unsafe_fields() {
    let mut document = ProgramDocument::default();
    document.programs.push(entry());
    assert!(document.validate().is_ok());
    document.programs.push(document.programs[0].clone());
    assert!(document.validate().is_err());
    document.programs.pop();
    document.schema_version = 2;
    assert!(document.validate().is_err());
    document.schema_version = 1;
    document.programs[0].arguments.push("x\0y".into());
    assert!(document.validate().is_err());
}

#[test]
fn mutations_are_revision_checked_and_missing_edits_do_not_create_entries() {
    let mut document = ProgramDocument::default();
    let program = entry();
    assert!(check_revision(&document, 1).is_err());
    update_document(&mut document, program.clone(), false).unwrap();
    assert_eq!(document.revision, 1);
    assert!(check_revision(&document, 0).is_err());
    let mut changed = program;
    changed.name = "编辑".into();
    update_document(&mut document, changed, true).unwrap();
    assert_eq!(document.programs.len(), 1);
    assert!(update_document(&mut document, entry(), true).is_err());
}

#[test]
fn command_uses_literal_arguments_and_child_only_environment() {
    let program = entry();
    let arguments = launch_arguments(&program, 17890);
    assert_eq!(arguments, program.arguments);
    let environment = proxy_environment(17890);
    assert!(environment
        .iter()
        .any(|(k, v)| k.eq_ignore_ascii_case("HTTPS_PROXY") && v == "http://127.0.0.1:17890"));
}

#[test]
fn chromium_proxy_flags_are_opt_in_and_cannot_be_overridden() {
    let mut program = entry();
    program.mode = ProgramProxyMode::Chromium;
    let args = launch_arguments(&program, 17891);
    assert!(args.contains(&"--proxy-server=http://127.0.0.1:17891".into()));
    assert!(args.contains(&"--disable-quic".into()));
    assert_eq!(args[0], "--proxy-server=http://127.0.0.1:17891");
    program
        .arguments
        .push("--proxy-server=http://untrusted.invalid".into());
    assert!(validate_fields(&program).is_err());
}

#[test]
fn network_and_shell_paths_are_rejected_before_filesystem_access() {
    for path in [
        "\\\\server\\share\\app.exe",
        "\\\\?\\UNC\\server\\app.exe",
        "\\\\.\\pipe\\app.exe",
        "app.exe",
        "C:app.exe",
        "https://example.invalid/app.exe",
    ] {
        assert!(!local_windows_path(path));
    }
    for path in [
        "C:\\Apps\\app.exe",
        "D:/Apps/app.exe",
        "\\\\?\\C:\\Apps\\app.exe",
    ] {
        assert!(local_windows_path(path));
    }
}

#[test]
fn environment_lists_every_proxy_variable_and_loopback_bypass() {
    let environment = proxy_environment(7890);
    assert_eq!(environment.len(), 12);
    assert_eq!(environment[0], ("HTTP_PROXY".to_string(), "http://127.0.0.1:7890".to_string()));
    assert_eq!(environment[9], ("wss_proxy".to_string(), "http://127.0.0.1:7890".to_string()));
    assert_eq!(
        environment[11],
        ("no_proxy".to_string(), "localhost,127.0.0.1,::1".to_string())
    );
    assert_eq!(proxy_endpoint_text(65535), "http://127.0.0.1:65535");
}

#[test]
fn field_rules_cover_names_paths_arguments_and_directories() {
    let mut program = entry();
    program.name = "   ".into();
    assert!(validate_fields(&program).is_err());
    program.name = "x".repeat(129);
    assert!(validate_fields(&program).is_err());
    program.name = "x".repeat(128);
    assert!(validate_fields(&program).is_ok());
    program.executable = "C:\\Apps\\script.cmd".into();
    assert!(validate_fields(&program).is_err());
    program.executable = "C:\\Apps\\APP.EXE".into();
    assert!(validate_fields(&program).is_ok());
    program.arguments = vec!["a".repeat(8192)];
    assert!(validate_fields(&program).is_ok());
    program.arguments = vec!["a".repeat(8192), "b".into()];
    assert!(validate_fields(&program).is_err());
    program.arguments = vec!["x".into(); 65];
    assert!(validate_fields(&program).is_err());
    program.arguments = vec![];
    program.working_directory = Some("\\\\server\\share".into());
    assert!(validate_fields(&program).is_err());
    program.working_directory = Some("D:\\work".into());
    assert!(validate_fields(&program).is_ok());
    program.mode = ProgramProxyMode::Chromium;
    program.arguments = vec!["  --DISABLE-QUIC".into()];
    assert!(validate_fields(&program).is_err());
    program.mode = ProgramProxyMode::Environment;
    assert!(validate_fields(&program).is_ok());
}

#[test]
fn inputs_are_trimmed_and_keep_their_id() {
    let input = ProgramInput {
        id: Some(42),
        name: "  test  ".into(),
        executable: " C:\\Apps\\app.exe ".into(),
        arguments: vec![" kept ".into()],
        working_directory: Some("   ".into()),
        mode: ProgramProxyMode::Environment,
    };
    let program = normalize_input(input.clone()).unwrap();
    assert_eq!(program.id, 42);
    assert_eq!(program.name, "test");
    assert_eq!(program.executable, "C:\\Apps\\app.exe");
    assert_eq!(program.arguments, vec![" kept ".to_string()]);
    assert_eq!(program.working_directory, None);
    let mut fresh = input.clone();
    fresh.id = None;
    let a = normalize_input(fresh.clone()).unwrap();
    let b = normalize_input(fresh).unwrap();
    assert_ne!(a.id, b.id);
    let mut relative = input;
    relative.executable = "app.exe".into();
    assert!(normalize_input(relative).is_err());
}

#[test]
fn resolved_paths_drop_the_verbatim_prefix_and_refuse_shares() {
    assert_eq!(canonical_executable("\\\\?\\C:\\Apps\\app.exe").unwrap(), "C:\\Apps\\app.exe");
    assert_eq!(canonical_executable("C:\\Apps\\app.exe").unwrap(), "C:\\Apps\\app.exe");
    assert!(canonical_executable("\\\\?\\UNC\\server\\app.exe").is_err());
    assert!(canonical_executable("\\\\server\\share\\app.exe").is_err());
    assert!(check_working_directory("C:\\work").is_ok());
    assert!(check_working_directory("work").is_err());
}

#[test]
fn removal_advances_the_revision_and_refuses_unknown_entries() {
    let mut document = ProgramDocument::default();
    let program = entry();
    update_document(&mut document, program.clone(), false).unwrap();
    assert!(remove_program(&mut document, program.id.wrapping_add(1)).is_err());
    assert_eq!(document.revision, 1);
    remove_program(&mut document, program.id).unwrap();
    assert!(document.programs.is_empty());
    assert_eq!(document.revision, 2);
    document.revision = u64::MAX;
    update_document(&mut document, entry(), false).unwrap_err();
    assert_eq!(document.revision, u64::MAX);
}
