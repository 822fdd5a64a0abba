use serylane::commands::{
    activates_now, existing_subscription, activation_target, check_settings_change, dto, observation_failure, rollback_target,
    selection_failure, SettingsChange, SubscriptionImportGuard,
};
use serylane::error::AppError;

fn change() -> SettingsChange {
    SettingsChange {
        core_running: false,
        network_mode_changed: false,
        switching_to_tun: false,
        tun_ready: false,
        mixed_port: 7890,
        controller_port: 9090,
        current_mixed_port: 7890,
        current_controller_port: 9090,
        diagnostics_retention_days: 7,
    }
}

#[test]
fn one_subscription_import_at_a_time() {
    let mut guard = SubscriptionImportGuard::default();
    guard.acquire().unwrap();
    assert!(matches!(guard.acquire(), Err(AppError::Conflict(_))));
    guard.release();
    assert!(guard.acquire().is_ok());
}

#[test]
fn settings_changes_follow_the_rules_in_order() {
    assert!(check_settings_change(change(), Ok(())).is_ok());
    let mut running = change();
    running.core_running = true;
    running.mixed_port = 7891;
    assert!(matches!(check_settings_change(running, Ok(())), Err(AppError::Conflict(_))));
    let mut tun = change();
    tun.switching_to_tun = true;
    assert!(matches!(check_settings_change(tun, Ok(())), Err(AppError::Platform(_))));
    let mut same = change();
    same.controller_port = 7890;
    assert!(matches!(check_settings_change(same, Ok(())), Err(AppError::InvalidInput(_))));
    let mut low = change();
    low.mixed_port = 80;
    assert!(matches!(check_settings_change(low, Ok(())), Err(AppError::InvalidInput(_))));
    let theme = Err(AppError::InvalidInput("主题无效".into()));
    assert_eq!(check_settings_change(change(), theme.clone()), theme);
    let mut days = change();
    days.diagnostics_retention_days = 91;
    assert!(check_settings_change(days, Ok(())).is_err());
    days.diagnostics_retention_days = 0;
    assert!(check_settings_change(days, Ok(())).is_err());
    days.diagnostics_retention_days = 90;
    assert!(check_settings_change(days, Ok(())).is_ok());
}

#[test]
fn storage_failures_say_what_was_kept() {
    match observation_failure(true) {
        AppError::Io(m) => assert!(m.starts_with("订阅更新失败")),
        other => panic!("{other:?}"),
    }
    match observation_failure(false) {
        AppError::Io(m) => assert!(m.starts_with("订阅已获取")),
        other => panic!("{other:?}"),
    }
    let original = AppError::Io("写入失败".into());
    assert_eq!(selection_failure(original.clone(), &vec![]), original);
    match selection_failure(original, &vec!["a".into(), "b".into()]) {
        AppError::Io(m) => assert_eq!(m, "配置选择失败且部分文件恢复失败：文件操作失败: 写入失败；a；b"),
        other => panic!("{other:?}"),
    }
    assert_eq!(dto(AppError::Conflict("x".into())).code, "STATE_CONFLICT");
}

#[test]
fn activation_and_rollback_targets() {
    assert_eq!(activation_target(Some(1), Some(2)).unwrap(), 1);
    assert_eq!(activation_target(None, Some(2)).unwrap(), 2);
    assert!(matches!(activation_target(None, None), Err(AppError::NotFound(_))));
    assert_eq!(rollback_target(Some(3)).unwrap(), 3);
    assert!(matches!(rollback_target(None), Err(AppError::Conflict(_))));
}

#[test]
fn reimports_reuse_the_profile_and_only_active_profiles_go_live() {
    let subs = vec![(1, "https://a.example/sub".to_string()), (2, "https://b.example/sub".to_string()), (3, "https://a.example/sub".to_string())];
    assert_eq!(existing_subscription(&subs, "https://a.example/sub"), Some(1));
    assert_eq!(existing_subscription(&subs, "https://c.example/sub"), None);
    assert!(activates_now(true, None, 5));
    assert!(activates_now(false, Some(5), 5));
    assert!(!activates_now(false, Some(4), 5));
    assert!(!activates_now(false, None, 5));
}
