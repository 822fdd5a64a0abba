use serylane::app_update::{
    candidate_priority, official_release_url, validate_asset, UpdateSource, MAX_DOWNLOAD_BYTES,
};
use serylane::data::DataNode;
use serylane::version::{parse_version, StableVersion};
use url::Url;

fn text(s: &str) -> DataNode {
    DataNode::Text(s.to_string())
}

fn manifest(target: &str, sha256: String, size: u64) -> DataNode {
    DataNode::Mapping(vec![(
        text("platforms"),
        DataNode::Mapping(vec![(
            text(target),
            DataNode::Mapping(vec![
                (text("sha256"), DataNode::Text(sha256)),
                (text("size"), DataNode::UInt(size)),
            ]),
        )]),
    )])
}

#[test]
fn newest_build_prefers_gitee_and_keeps_github_as_download_fallback() {
    let version = StableVersion(1, 2, 3);
    let mut sources = [UpdateSource::Github, UpdateSource::Gitee];
    sources.sort_by_key(|source| candidate_priority(version, *source));
    assert_eq!(sources, [UpdateSource::Gitee, UpdateSource::Github]);
    sources.reverse();
    sources.sort_by_key(|source| candidate_priority(version, *source));
    assert_eq!(sources, [UpdateSource::Gitee, UpdateSource::Github]);
}

#[test]
fn lagging_domestic_mirror_never_hides_a_newer_official_release() {
    let mut releases = [
        (StableVersion(1, 2, 3), UpdateSource::Gitee),
        (StableVersion(1, 2, 4), UpdateSource::Github),
    ];
    releases.sort_by_key(|(version, source)| candidate_priority(*version, *source));
    assert_eq!(releases[0], (StableVersion(1, 2, 4), UpdateSource::Github));
}

#[test]
fn automatic_updates_remain_the_default_and_either_single_source_is_usable() {
    assert_eq!(UpdateSource::default(), UpdateSource::Auto);
    for source in [UpdateSource::Gitee, UpdateSource::Github] {
        let mut sources = [source];
        sources.sort_by_key(|source| candidate_priority(StableVersion(1, 2, 3), *source));
        assert_eq!(sources, [source]);
    }
}

#[test]
fn versions_are_strict_numeric_and_never_allow_prereleases_or_paths() {
    assert!(parse_version("0.10.0").unwrap() > parse_version("0.9.9").unwrap());
    for version in [
        "v1.2.3",
        "1.02.3",
        "1.2.03",
        "1.2",
        "1.2.3.4",
        "1.2.3-beta",
        "1.2.3/other",
        "1.2.18446744073709551616",
    ] {
        assert!(parse_version(version).is_err(), "{version}");
    }
}

#[test]
fn official_urls_are_derived_from_source_and_strict_tag() {
    assert_eq!(
        official_release_url(UpdateSource::Github, "v0.7.7").unwrap(),
        "https://github.com/CMMUU/serylane/releases/tag/v0.7.7"
    );
    assert_eq!(
        official_release_url(UpdateSource::Gitee, "v1.2.3").unwrap(),
        "https://gitee.com/cmmuu/routedeck/releases/tag/v1.2.3"
    );
    assert!(official_release_url(UpdateSource::Auto, "v1.2.3").is_err());
    assert!(official_release_url(UpdateSource::Github, "v1.2.3?redirect=evil").is_err());
}

#[test]
fn github_rename_accepts_only_exact_current_and_legacy_update_assets() {
    let raw = manifest("windows-x86_64", "a".repeat(64), 100);
    for repo in ["serylane", "routedeck"] {
        let url = format!(
            "https://github.com/CMMUU/{repo}/releases/download/v0.7.7/RouteDeck_0.7.7_x64-setup.exe"
        );
        assert!(validate_asset(
            UpdateSource::Github,
            "windows-x86_64",
            "0.7.7",
            Url::parse(&url).unwrap().as_str(),
            &raw
        )
        .is_ok());
        for invalid in [
            url.replace("CMMUU", "other"),
            url.replace("github.com", "github.com.attacker"),
            url.replace(repo, "other-repository"),
            url.replace("v0.7.7/", "v0.7.8/"),
            url.replace("_x64-", "_arm64-"),
            format!("{url}?redirect=other"),
        ] {
            assert!(validate_asset(
                UpdateSource::Github,
                "windows-x86_64",
                "0.7.7",
                Url::parse(&invalid).unwrap().as_str(),
                &raw
            )
            .is_err());
        }
    }
}

#[test]
fn asset_validation_binds_channel_version_arch_hash_and_size() {
    let raw = manifest("windows-x86_64", "a".repeat(64), 100);
    let url = Url::parse(
        "https://gitee.com/cmmuu/routedeck/releases/download/v1.2.3/RouteDeck_1.2.3_x64-setup.exe",
    )
    .unwrap();
    let url = url.as_str();
    assert!(validate_asset(UpdateSource::Gitee, "windows-x86_64", "1.2.3", url, &raw).is_ok());
    assert!(validate_asset(UpdateSource::Github, "windows-x86_64", "1.2.3", url, &raw).is_err());
    assert!(validate_asset(UpdateSource::Gitee, "windows-aarch64", "1.2.3", url, &raw).is_err());
    assert!(validate_asset(UpdateSource::Gitee, "windows-x86_64", "1.2.4", url, &raw).is_err());
    let altered = manifest("windows-x86_64", "a".repeat(64), MAX_DOWNLOAD_BYTES + 1);
    assert!(validate_asset(UpdateSource::Gitee, "windows-x86_64", "1.2.3", url, &altered).is_err());
    let empty = DataNode::Mapping(vec![]);
    assert!(validate_asset(UpdateSource::Gitee, "windows-x86_64", "1.2.3", url, &empty).is_err());
}

#[test]
fn validated_asset_reports_lowercase_digest_and_size() {
    let raw = manifest("windows-x86_64", "AB".repeat(32), 4096);
    let url = "https://gitee.com/cmmuu/routedeck/releases/download/v1.2.3/RouteDeck_1.2.3_x64-setup.exe";
    let (hash, size) =
        validate_asset(UpdateSource::Gitee, "windows-x86_64", "1.2.3", url, &raw).unwrap();
    assert_eq!(hash, "ab".repeat(32));
    assert_eq!(size, 4096);
}

#[test]
fn version_errors_distinguish_shape_from_range() {
    assert_eq!(parse_version("1.2.3").unwrap(), StableVersion(1, 2, 3));
    assert_eq!(
        parse_version("18446744073709551615.0.0").unwrap(),
        StableVersion(u64::MAX, 0, 0)
    );
    let range = parse_version("1.2.18446744073709551616").unwrap_err();
    assert_eq!(range.message(), "应用更新失败: 版本号超出范围");
    let shape = parse_version("1.2").unwrap_err();
    assert_eq!(shape.code(), "UPDATE_ERROR");
    assert!(shape.message().contains("X.Y.Z"));
}

#[test]
fn version_texts_parse_back_to_their_versions() {
    for (a, b, c) in [(0u64, 0u64, 0u64), (1, 10, 100), (u64::MAX, 7, u64::MAX)] {
        assert_eq!(parse_version(&format!("{a}.{b}.{c}")).unwrap(), StableVersion(a, b, c));
    }
    for text in ["01.2.3", "1.2.3.4", "+1.2.3", "1.2.3 ", "v1.2.3", "1..3", "18446744073709551616.0.0"] {
        assert!(parse_version(text).is_err(), "{text}");
    }
}
