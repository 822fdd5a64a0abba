use serylane::app_update::UpdateSource;
use serylane::data::DataNode;
use serylane::digest::{lower_hex, sha256_hex_of};
use serylane::error::AppError;
use serylane::update_check::{
    check_manifest, gitee_manifest_url, summarize_check, AppUpdateInfo, ReleaseCandidate,
};
use serylane::update_session::{
    attempt_failure, downloads_failed, oversized_download, verify_download, AppUpdateManager,
};
use serylane::version::StableVersion;

fn candidate(source: UpdateSource, version: (u64, u64, u64), sha: &str, signature: &str) -> ReleaseCandidate {
    ReleaseCandidate {
        source,
        version: StableVersion(version.0, version.1, version.2),
        version_text: format!("{}.{}.{}", version.0, version.1, version.2),
        sha256: sha.to_string(),
        size: 3,
        signature: signature.to_string(),
        notes: "notes".to_string(),
        published_at: Some("2026-01-01".to_string()),
    }
}

#[test]
fn updater_operations_are_exclusive_and_cancellation_resets_on_retry() {
    let mut manager = AppUpdateManager::default();
    manager.begin().unwrap();
    assert!(manager.begin().is_err());
    manager.cancelled = true;
    manager.status.phase = "downloading".into();
    manager.end_operation();
    assert_eq!(manager.status.phase, "failed");
    manager.begin().unwrap();
    assert!(!manager.cancelled);
}

#[test]
fn cancellation_only_counts_while_downloading_and_marks_the_failure() {
    let mut manager = AppUpdateManager::default();
    manager.cancel();
    assert!(!manager.cancelled);
    manager.status.phase = "downloading".into();
    manager.cancel();
    assert!(manager.cancelled);
    let dto = manager.finish_error(&AppError::Update("下载已取消".into()));
    assert_eq!(manager.status.phase, "cancelled");
    assert_eq!(dto.code, "UPDATE_ERROR");
    assert_eq!(manager.status.error.as_deref(), Some("应用更新失败: 下载已取消"));
    manager.end_operation();
    assert_eq!(manager.status.phase, "cancelled");
}

#[test]
fn newest_version_wins_and_mirror_builds_are_the_fallback_order() {
    let same = "a".repeat(64);
    let results = vec![
        (UpdateSource::Gitee, Ok(candidate(UpdateSource::Gitee, (1, 2, 3), &same, "sig"))),
        (UpdateSource::Github, Ok(candidate(UpdateSource::Github, (1, 2, 3), &same, "sig"))),
    ];
    let (info, kept) = summarize_check("1.2.2", &results).unwrap();
    assert!(info.available);
    assert!(!info.ahead);
    assert_eq!(info.latest_version, "v1.2.3");
    assert_eq!(info.source, UpdateSource::Gitee);
    assert_eq!(info.release_url, "https://gitee.com/cmmuu/routedeck/releases/tag/v1.2.3");
    assert_eq!(kept, vec![0, 1]);
    assert_eq!(info.channels[1].version.as_deref(), Some("v1.2.3"));
    assert!(info.channels.iter().all(|c| c.error.is_none()));

    let lagging = vec![
        (UpdateSource::Gitee, Ok(candidate(UpdateSource::Gitee, (1, 2, 3), &same, "sig"))),
        (UpdateSource::Github, Ok(candidate(UpdateSource::Github, (1, 3, 0), &same, "sig"))),
    ];
    let (info, kept) = summarize_check("1.3.0", &lagging).unwrap();
    assert_eq!(info.source, UpdateSource::Github);
    assert!(!info.available && !info.ahead);
    assert_eq!(kept, vec![1]);
}

#[test]
fn a_different_build_under_the_same_version_is_marked_and_never_a_fallback() {
    let results = vec![
        (UpdateSource::Gitee, Ok(candidate(UpdateSource::Gitee, (2, 0, 0), &"a".repeat(64), "one"))),
        (UpdateSource::Github, Ok(candidate(UpdateSource::Github, (2, 0, 0), &"b".repeat(64), "two"))),
    ];
    let (info, kept) = summarize_check("3.0.0", &results).unwrap();
    assert!(info.ahead);
    assert_eq!(kept, vec![0]);
    assert_eq!(
        info.channels[1].error.as_deref(),
        Some("此渠道同版本的安装包或签名不一致，已排除跨渠道下载回退")
    );
    assert!(info.channels[0].error.is_none());
}

#[test]
fn all_channels_failing_reports_every_reason() {
    let results: Vec<(UpdateSource, Result<ReleaseCandidate, AppError>)> = vec![
        (UpdateSource::Gitee, Err(AppError::Update("a".into()))),
        (UpdateSource::Github, Err(AppError::Update("b".into()))),
    ];
    match summarize_check("1.0.0", &results) {
        Err(AppError::Update(message)) => {
            assert_eq!(message, "应用更新失败: a；应用更新失败: b")
        }
        other => panic!("unexpected {other:?}"),
    }
    let one = vec![
        (UpdateSource::Gitee, Err(AppError::Update("x".into()))),
        (UpdateSource::Github, Ok(candidate(UpdateSource::Github, (1, 0, 1), &"c".repeat(64), "s"))),
    ];
    let (info, kept): (AppUpdateInfo, Vec<usize>) = summarize_check("1.0.0", &one).unwrap();
    assert_eq!(kept, vec![1]);
    assert_eq!(info.channels[0].error.as_deref(), Some("应用更新失败: x"));
    assert_eq!(info.notes, "notes");
    assert_eq!(info.published_at.as_deref(), Some("2026-01-01"));
}

#[test]
fn digests_are_lower_case_hex_sha256() {
    assert_eq!(lower_hex(&[0, 15, 16, 255]), "000f10ff");
    assert_eq!(
        sha256_hex_of(b"abc"),
        "ba7816bf8f01cfea414140de5dae2223b00361a396177a9cb410ff61f20015ad"
    );
}

#[test]
fn downloads_must_match_size_and_digest() {
    let bytes = b"abc".to_vec();
    let mut c = candidate(UpdateSource::Github, (1, 0, 0), &sha256_hex_of(&bytes), "s");
    assert!(verify_download(&c, &bytes, false, false).is_ok());
    assert!(verify_download(&c, &bytes, true, false).is_err());
    assert!(verify_download(&c, &bytes, false, true).is_err());
    c.size = 4;
    assert!(verify_download(&c, &bytes, false, false).is_err());
    c.size = 3;
    c.sha256 = "0".repeat(64);
    assert!(verify_download(&c, &bytes, false, false).is_err());
    assert!(oversized_download(4, None, 3));
    assert!(oversized_download(1, Some(5), 3));
    assert!(!oversized_download(3, Some(3), 3));
    let line = attempt_failure(UpdateSource::Gitee, &AppError::Update("下载已取消".into()));
    assert_eq!(line, "Gitee：应用更新失败: 下载已取消");
    match downloads_failed(&vec![line.clone(), "b".into()]) {
        AppError::Update(m) => assert_eq!(m, format!("{line}；b")),
        other => panic!("unexpected {other:?}"),
    }
}

#[test]
fn install_needs_the_ready_newer_package_with_its_digest() {
    let bytes = b"abc".to_vec();
    let c = candidate(UpdateSource::Github, (1, 0, 1), &sha256_hex_of(&bytes), "s");
    let results = vec![(UpdateSource::Github, Ok(c.clone()))];
    let (info, kept) = summarize_check("1.0.0", &results).unwrap();
    assert_eq!(kept, vec![0]);
    let mut manager = AppUpdateManager::default();
    manager.begin().unwrap();
    manager.start_check();
    assert_eq!(manager.status.phase, "checking");
    manager.complete_check(info, vec![c.clone()]);
    assert_eq!(manager.status.phase, "available");
    assert!(manager.check_install("v1.0.1", "1.0.0").is_err());
    assert!(manager.start_download("v9.9.9").is_err());
    manager.start_download("v1.0.1").unwrap();
    assert_eq!(manager.status.phase, "downloading");
    manager.select_candidate(&c, "v1.0.1").unwrap();
    assert_eq!(manager.status.total_bytes, 3);
    manager.record_progress(2);
    assert_eq!(manager.status.downloaded_bytes, 2);
    manager.finish_download(c.clone(), bytes.clone());
    assert_eq!(manager.status.phase, "ready");
    assert!(manager.check_install("v1.0.1", "1.0.1").is_err());
    manager.check_install("v1.0.1", "1.0.0").unwrap();
    let (installed, package) = manager.begin_install().unwrap();
    assert_eq!(installed.version, StableVersion(1, 0, 1));
    assert_eq!(package, bytes);
    assert_eq!(manager.status.phase, "installing");
    assert!(manager.begin_install().is_err());
    manager.end_operation();
    assert_eq!(manager.status.phase, "failed");
    assert!(!manager.busy);
}

fn text(s: &str) -> DataNode {
    DataNode::Text(s.to_string())
}

#[test]
fn manifests_are_bound_to_platform_url_and_gitee_release_path() {
    let hash = "A".repeat(64);
    let url = "https://gitee.com/cmmuu/routedeck/releases/download/v1.2.3/RouteDeck_1.2.3_x64-setup.exe";
    let raw = DataNode::Mapping(vec![
        (text("pub_date"), text("2026-02-02T00:00:00Z")),
        (
            text("platforms"),
            DataNode::Mapping(vec![(
                text("windows-x86_64-nsis"),
                DataNode::Mapping(vec![
                    (text("url"), text(url)),
                    (text("sha256"), text(&hash)),
                    (text("size"), DataNode::UInt(100)),
                ]),
            )]),
        ),
    ]);
    let endpoint = "https://gitee.com/cmmuu/routedeck/releases/download/v1.2.3/latest-gitee.json";
    let accepted = check_manifest(
        UpdateSource::Gitee, "windows-x86_64", "1.2.3", "sig", 10, url, &raw, endpoint, None,
    );
    match accepted {
        Ok(c) => {
            assert_eq!(c.sha256, "a".repeat(64));
            assert_eq!(c.size, 100);
            assert_eq!(c.version, StableVersion(1, 2, 3));
            assert_eq!(c.published_at.as_deref(), Some("2026-02-02T00:00:00Z"));
            assert_eq!(c.notes, "");
        }
        Err(e) => panic!("rejected: {e:?}"),
    }
    let other_release = "https://gitee.com/cmmuu/routedeck/releases/download/v1.2.4/latest-gitee.json";
    assert!(check_manifest(
        UpdateSource::Gitee, "windows-x86_64", "1.2.3", "sig", 10, url, &raw, other_release, None,
    )
    .is_err());
    assert!(check_manifest(
        UpdateSource::Gitee, "windows-x86_64", "1.2.3", "  ", 10, url, &raw, endpoint, None,
    )
    .is_err());
    assert!(check_manifest(
        UpdateSource::Gitee, "windows-aarch64", "1.2.3", "sig", 10, url, &raw, endpoint, None,
    )
    .is_err());
    assert!(check_manifest(
        UpdateSource::Gitee, "windows-x86_64", "1.2.3", "sig", 600 * 1024, url, &raw, endpoint, None,
    )
    .is_err());
}

#[test]
fn gitee_release_must_be_stable_and_strictly_tagged() {
    let release = DataNode::Mapping(vec![
        (text("tag_name"), text("v1.2.3")),
        (text("prerelease"), DataNode::Bool(false)),
    ]);
    assert_eq!(
        gitee_manifest_url(&release).unwrap(),
        "https://gitee.com/cmmuu/routedeck/releases/download/v1.2.3/latest-gitee.json"
    );
    let draft = DataNode::Mapping(vec![
        (text("tag_name"), text("v1.2.3")),
        (text("draft"), DataNode::Bool(true)),
    ]);
    assert!(gitee_manifest_url(&draft).is_err());
    let bad_tag = DataNode::Mapping(vec![(text("tag_name"), text("1.2.3"))]);
    assert!(gitee_manifest_url(&bad_tag).is_err());
    assert!(gitee_manifest_url(&DataNode::Mapping(vec![])).is_err());
}

#[test]
fn installs_start_only_after_the_gate_approves() {
    let bytes = b"abc".to_vec();
    let c = candidate(UpdateSource::Github, (1, 0, 1), &sha256_hex_of(&bytes), "s");
    let results = vec![(UpdateSource::Github, Ok(c.clone()))];
    let (info, _) = summarize_check("1.0.0", &results).unwrap();
    let mut manager = AppUpdateManager::default();
    manager.begin().unwrap();
    manager.start_check();
    manager.complete_check(info, vec![c.clone()]);
    manager.start_download("v1.0.1").unwrap();
    manager.select_candidate(&c, "v1.0.1").unwrap();
    manager.finish_download(c.clone(), bytes.clone());
    assert!(manager.busy);
    assert!(matches!(manager.approve_install(true, "v1.0.1", "1.0.0"), Err(AppError::Conflict(_))));
    assert_eq!(manager.status.phase, "ready");
    manager.end_operation();
    assert!(matches!(manager.approve_install(false, "v1.0.1", "1.0.0"), Err(AppError::Update(_))));
    assert!(!manager.busy);
    assert_eq!(manager.status.phase, "ready");
    assert!(manager.approve_install(true, "v1.0.1", "1.0.1").is_err());
    assert!(!manager.busy);
    assert_eq!(manager.status.phase, "failed");
    assert!(manager.ready.is_some());
}

#[test]
fn an_approved_install_keeps_its_operation_running() {
    let bytes = b"abc".to_vec();
    let c = candidate(UpdateSource::Github, (1, 0, 1), &sha256_hex_of(&bytes), "s");
    let results = vec![(UpdateSource::Github, Ok(c.clone()))];
    let (info, _) = summarize_check("1.0.0", &results).unwrap();
    let mut manager = AppUpdateManager::default();
    manager.begin().unwrap();
    manager.start_check();
    manager.complete_check(info, vec![c.clone()]);
    manager.start_download("v1.0.1").unwrap();
    manager.select_candidate(&c, "v1.0.1").unwrap();
    manager.finish_download(c.clone(), bytes.clone());
    manager.end_operation();
    manager.approve_install(true, "v1.0.1", "1.0.0").unwrap();
    assert!(manager.busy);
    let (installed, _) = manager.begin_install().unwrap();
    assert_eq!(installed.version, StableVersion(1, 0, 1));
}
