use serylane::codex::{
    check_attach, compare_and_write, config_parses, config_source, has_lease, installed_config, owns,
    plan_restore, providers_not_table, read_facts, restored_config, revision, status, CodexStatus,
    ConfigFacts, Lease, RestoreWrite,
};
use serylane::digest::sha256_hex_of;
use serylane::error::AppError;

fn facts(provider: Option<&str>, entry: Option<&str>) -> ConfigFacts {
    ConfigFacts {
        model_provider: provider.map(str::to_string),
        base_url: entry.map(|_| "http://127.0.0.1:17891/v1".to_string()),
        provider_entry: entry.map(str::to_string),
        has_profile: false,
    }
}

fn lease(original: &str, installed: &str) -> Lease {
    Lease {
        config_path: "/home/u/.codex/config.toml".into(),
        original: Some(original.into()),
        installed: installed.into(),
        backup_name: "codex-backup-1.toml".into(),
    }
}

#[test]
fn revisions_tell_an_absent_file_from_an_empty_one() {
    assert_eq!(revision(&None), sha256_hex_of(b"false:"));
    assert_eq!(revision(&Some(String::new())), sha256_hex_of(b"true:"));
    assert_ne!(revision(&None), revision(&Some(String::new())));
}

#[test]
fn a_corrupt_journal_is_an_error_not_a_missing_lease() {
    assert_eq!(has_lease(false, &None).unwrap(), false);
    assert_eq!(has_lease(true, &Some(lease("a", "b"))).unwrap(), true);
    assert!(matches!(has_lease(true, &None), Err(AppError::Config(_))));
}

#[test]
fn writes_only_replace_the_state_they_were_computed_from() {
    let before = Some("x = 1\n".to_string());
    assert!(compare_and_write(&before, &before, "x = 2\n").is_ok());
    assert!(matches!(
        compare_and_write(&Some("x = 3\n".into()), &before, "x = 2\n"),
        Err(AppError::Conflict(_))
    ));
    assert!(matches!(compare_and_write(&None, &before, "x"), Err(AppError::Conflict(_))));
    let huge = "a".repeat(2 * 1024 * 1024 + 1);
    assert!(matches!(compare_and_write(&before, &before, &huge), Err(AppError::Io(_))));
}

#[test]
fn attach_refuses_stale_unparsable_or_occupied_configurations() {
    let before = Some("model = \"m\"\n".to_string());
    let current = revision(&before);
    let free = Some(facts(None, None));
    assert!(check_attach(false, &before, &current, &free, false).is_ok());
    assert!(check_attach(true, &before, &current, &free, false).is_err());
    assert!(check_attach(false, &before, "stale", &free, false).is_err());
    assert!(matches!(check_attach(false, &before, &current, &None, false), Err(AppError::Config(_))));
    let taken = Some(facts(Some("routedeck"), None));
    assert!(check_attach(false, &before, &current, &taken, false).is_err());
    let entry = Some(facts(Some("other"), Some("[model_providers.routedeck]")));
    assert!(check_attach(false, &before, &current, &entry, false).is_err());
    assert!(check_attach(false, &before, &current, &free, true).is_err());
}

#[test]
fn conflicts_are_never_overwritten_and_exact_installs_restore_exactly() {
    let installed_text = "model_provider = \"routedeck\"\n[model_providers.routedeck]\n";
    let l = lease("# original\n", installed_text);
    let ours = facts(Some("routedeck"), Some("name = \"Serylane\""));
    let installed = facts(Some("routedeck"), Some("name = \"Serylane\""));
    assert!(owns(&ours, &installed));
    let path = "/home/u/.codex/config.toml";
    let exact = plan_restore(&l, path, &Some(installed_text.into()), &None, &Some(ours.clone()), &Some(installed.clone()), true);
    assert_eq!(exact.unwrap(), RestoreWrite::Original("# original\n".into()));
    let edited = plan_restore(&l, path, &Some("changed".into()), &None, &Some(ours.clone()), &Some(installed.clone()), true);
    assert_eq!(edited.unwrap(), RestoreWrite::Edited);
    let other = facts(Some("another"), Some("name = \"Serylane\""));
    assert!(matches!(
        plan_restore(&l, path, &Some("changed".into()), &None, &Some(other), &Some(installed.clone()), true),
        Err(AppError::Conflict(_))
    ));
    let renamed = facts(Some("routedeck"), Some("name = \"another router\""));
    assert!(!owns(&renamed, &installed));
    assert_eq!(
        plan_restore(&l, path, &Some("# original\n".into()), &None, &None, &None, false).unwrap(),
        RestoreWrite::Nothing
    );
    assert!(plan_restore(&l, "/elsewhere/config.toml", &None, &None, &None, &None, true).is_err());
    assert!(plan_restore(&l, path, &Some("changed".into()), &Some("stale".into()), &Some(ours), &Some(installed), true).is_err());
}

#[test]
fn status_shows_provider_endpoint_and_conflicts() {
    let text = Some("model_provider = \"routedeck\"\n".to_string());
    let path = "/home/u/.codex/config.toml";
    let l = Some(lease("", text.as_deref().unwrap()));
    let doc = facts(Some("routedeck"), Some("entry"));
    let shown = status(&text, path, &l, &Some("/d/codex-backup-1.toml".into()), &Some(doc.clone()), &Some(doc.clone()));
    assert!(shown.attached && shown.has_backup);
    assert_eq!(shown.provider, "routedeck");
    assert_eq!(shown.endpoint.as_deref(), Some("http://127.0.0.1:17891"));
    assert!(shown.warning.is_none());
    assert_eq!(shown.config_revision, revision(&text));
    let changed = facts(Some("another"), None);
    let conflict = status(&text, path, &l, &None, &Some(changed), &Some(doc));
    assert!(!conflict.attached);
    assert!(conflict.warning.unwrap().contains("其他程序修改"));
    let broken = status(&Some("model_provider = [\n".into()), path, &None, &None, &None, &None);
    assert_eq!(broken.provider, "配置无法解析");
    assert!(broken.warning.is_some());
    let plain = status(&None, path, &None, &None, &Some(facts(None, None)), &None);
    assert_eq!(plain.provider, "openai");
    assert!(plain.endpoint.is_none() && plain.warning.is_none());
    let switch = status(&None, path, &None, &None, &Some(facts(Some("cc-switch-official"), None)), &None);
    assert!(switch.warning.is_some());
}

const PATH: &str = "/home/u/.codex/config.toml";
const ENDPOINT: &str = "http://127.0.0.1:17891/v1";

fn status_of(config: &Option<String>, lease: &Option<Lease>) -> CodexStatus {
    let installed = lease.as_ref().and_then(|l| read_facts(&Some(l.installed.clone())));
    let backup = lease.as_ref().map(|l| format!("/route/{}", l.backup_name));
    status(config, PATH, lease, &backup, &read_facts(config), &installed)
}

fn attach(config: &mut Option<String>, lease: &mut Option<Lease>, expected: &str) -> Result<(), AppError> {
    let before = config.clone();
    check_attach(
        lease.is_some(),
        &before,
        expected,
        &read_facts(&before),
        providers_not_table(&before),
    )?;
    let installed = installed_config(&before, ENDPOINT, true)?;
    compare_and_write(config, &before, &installed)?;
    *lease = Some(Lease {
        config_path: PATH.to_string(),
        original: before,
        installed: installed.clone(),
        backup_name: "codex-backup-1.toml".to_string(),
    });
    *config = Some(installed);
    Ok(())
}

fn restore(config: &mut Option<String>, lease: &mut Option<Lease>, expected: Option<&str>) -> Result<(), AppError> {
    let Some(l) = lease.clone() else {
        return Ok(());
    };
    let before = config.clone();
    let plan = plan_restore(
        &l,
        PATH,
        &before,
        &expected.map(str::to_string),
        &read_facts(&before),
        &read_facts(&Some(l.installed.clone())),
        config_parses(&l.original),
    )?;
    let after = match plan {
        RestoreWrite::Nothing => None,
        RestoreWrite::Original(text) => Some(text),
        RestoreWrite::Edited => Some(restored_config(&before, &l.original)?),
    };
    if let Some(text) = after {
        compare_and_write(config, &before, &text)?;
        *config = Some(text);
    }
    *lease = None;
    Ok(())
}

#[test]
fn attach_restore_preserve_auth_comments_and_unrelated_edits() {
    let mut config = Some("# my comment\nmodel = \"sample\"\n".to_string());
    let mut lease = None;
    let shown = status_of(&config, &lease);
    attach(&mut config, &mut lease, &shown.config_revision).unwrap();
    assert!(status_of(&config, &lease).attached);
    config = config.map(|c| c.replace("sample", "changed-model"));
    restore(&mut config, &mut lease, None).unwrap();
    let result = config.unwrap();
    assert!(result.contains("# my comment"));
    assert!(result.contains("changed-model"));
    assert!(!result.contains("routedeck"));
}

#[test]
fn serylane_recognizes_and_restores_a_routedeck_073_lease() {
    let original = "# original\nmodel = \"sample\"\n".to_string();
    let mut config = Some(original.clone());
    let mut lease = None;
    let shown = status_of(&config, &lease);
    attach(&mut config, &mut lease, &shown.config_revision).unwrap();
    let attached = config.clone().unwrap();
    assert!(attached.contains("model_provider = \"routedeck\""));
    assert!(attached.contains("name = \"Serylane 本地路由\""));

    let legacy = attached.replace("Serylane 本地路由", "RouteDeck 本地路由");
    lease.as_mut().unwrap().installed = legacy.clone();
    config = Some(legacy.clone());
    assert!(status_of(&config, &lease).attached);
    assert_eq!(config.as_deref(), Some(legacy.as_str()));

    let changed = legacy.replace("RouteDeck 本地路由", "another router");
    config = Some(changed.clone());
    assert!(restore(&mut config, &mut lease, None).is_err());
    assert_eq!(config.as_deref(), Some(changed.as_str()));
    assert!(lease.is_some());

    config = Some(legacy);
    restore(&mut config, &mut lease, None).unwrap();
    assert_eq!(config, Some(original));
    assert!(lease.is_none());
}

#[test]
fn conflicts_never_overwrite_another_router() {
    let mut config = Some("model_provider = \"cc-switch-official\"\n".to_string());
    let mut lease = None;
    let shown = status_of(&config, &lease);
    attach(&mut config, &mut lease, &shown.config_revision).unwrap();
    let changed = config.clone().unwrap().replace(
        "model_provider = \"routedeck\"",
        "model_provider = \"another\"",
    );
    config = Some(changed.clone());
    assert!(restore(&mut config, &mut lease, None).is_err());
    assert_eq!(config, Some(changed));
    assert!(lease.is_some());
}

#[test]
fn malformed_config_status_is_visible_but_attach_cannot_overwrite_it() {
    let mut config = Some("model_provider = [\n".to_string());
    let mut lease = None;
    let state = status_of(&config, &lease);
    assert!(state.warning.is_some());
    assert!(attach(&mut config, &mut lease, &state.config_revision).is_err());
    assert_eq!(config.as_deref(), Some("model_provider = [\n"));
    assert!(lease.is_none());
}

#[test]
fn exact_restore_and_stale_revision() {
    let old = "# preserved\nmodel_provider = \"cc-switch-official\"\n".to_string();
    let mut config = Some(old.clone());
    let mut lease = None;
    assert!(attach(&mut config, &mut lease, "stale").is_err());
    assert!(lease.is_none());
    let shown = status_of(&config, &lease);
    attach(&mut config, &mut lease, &shown.config_revision).unwrap();
    restore(&mut config, &mut lease, None).unwrap();
    assert_eq!(config, Some(old));
}

#[test]
fn installing_selects_the_route_and_restoring_edits_drops_only_the_leased_keys() {
    let installed = installed_config(&Some("model = \"m\"\n".into()), ENDPOINT, false).unwrap();
    let facts = read_facts(&Some(installed.clone())).unwrap();
    assert_eq!(facts.model_provider.as_deref(), Some("routedeck"));
    assert_eq!(facts.base_url.as_deref(), Some(ENDPOINT));
    assert!(facts.provider_entry.unwrap().contains("supports_websockets = false"));
    assert!(installed.contains("[model_providers.routedeck]"));
    let edited = installed.replace("model = \"m\"", "model = \"n\"");
    let back = restored_config(&Some(edited), &Some("model = \"m\"\n".into())).unwrap();
    assert_eq!(back, "model = \"n\"\n");
    let kept = restored_config(
        &Some(installed.clone()),
        &Some("model_provider = \"x\"\n[model_providers]\n".into()),
    )
    .unwrap();
    assert!(kept.contains("model_provider = \"x\""));
    assert!(kept.contains("[model_providers]"));
    assert!(!kept.contains("routedeck"));
    assert!(installed_config(&Some("model_provider = [\n".into()), ENDPOINT, true).is_err());
    assert!(restored_config(&Some(installed), &Some("x = [\n".into())).is_err());
}

#[test]
fn byte_order_marks_are_dropped_before_parsing() {
    assert_eq!(config_source(&Some("\u{feff}\u{feff}a = 1\n".into())), "a = 1\n");
    assert_eq!(config_source(&None), "");
    assert!(config_parses(&Some("\u{feff}a = 1\n".into())));
    assert!(!config_parses(&Some("a = [\n".into())));
    assert!(providers_not_table(&Some("model_providers = 3\n".into())));
    assert!(!providers_not_table(&Some("[model_providers]\n".into())));
    assert!(!providers_not_table(&None));
}
