use serylane::config::{inspect_profile, is_subscription_metadata_node_name, ProfileSummary};
use serylane::data::DataNode;
use serde_yaml::Value;

fn key_node(value: &Value) -> DataNode {
    match value {
        Value::String(s) => DataNode::Text(s.clone()),
        _ => DataNode::Other,
    }
}

fn node(value: &Value) -> DataNode {
    let mut value = value;
    while let Value::Tagged(tagged) = value {
        value = &tagged.value;
    }
    match value {
        Value::String(s) => DataNode::Text(s.clone()),
        Value::Bool(b) => DataNode::Bool(*b),
        Value::Number(n) => n.as_u64().map(DataNode::UInt).unwrap_or(DataNode::Other),
        Value::Sequence(items) => DataNode::Sequence(items.iter().map(node).collect()),
        Value::Mapping(map) => {
            DataNode::Mapping(map.iter().map(|(k, v)| (key_node(k), node(v))).collect())
        }
        _ => DataNode::Other,
    }
}

fn inspect(source: &str) -> Result<ProfileSummary, String> {
    let parsed = serde_yaml::from_str::<Value>(source)
        .map(|value| node(&value))
        .map_err(|error| error.to_string());
    inspect_profile(parsed)
}

#[test]
fn inspects_a_minimal_mihomo_profile() {
    let summary = inspect(
        r#"
proxies:
  - name: sample
    type: socks5
    server: 127.0.0.1
    port: 1080
proxy-groups:
  - name: PROXY
    type: select
    proxies: [sample]
rules:
  - MATCH,PROXY
dns:
  enable: true
"#,
    )
    .expect("profile should parse");

    assert_eq!(summary.node_count, 1);
    assert_eq!(summary.proxy_group_count, 1);
    assert_eq!(summary.rule_count, 1);
    assert!(summary.dns_configured);
    assert_eq!(summary.node_protocols, vec!["socks5"]);
}

#[test]
fn reports_unsupported_group_types_without_failing_parse() {
    let summary = inspect(
        r#"
proxies:
  - name: sample
    type: socks5
    server: 127.0.0.1
    port: 1080
proxy-groups:
  - name: BALANCE
    type: load-balance
    proxies: [sample]
"#,
    )
    .expect("profile should parse");

    assert_eq!(summary.unsupported_group_types, vec!["load-balance"]);
    assert!(!summary.warnings.is_empty());
}

#[test]
fn rejects_non_mapping_root() {
    let error = inspect("- plain-list-item").expect_err("root must be a mapping");
    assert!(error.contains("根节点"));
}

#[test]
fn recognizes_subscription_metadata_nodes() {
    for name in [
        "剩余流量：15.61 GB",
        "距离下次重置剩余：29 天",
        "套餐到期：2026-09-17",
        "放丢失官网:https://example.com",
        "Traffic Remaining: 20 GB",
        "建议：感到卡顿请切换到专线节点",
    ] {
        assert!(is_subscription_metadata_node_name(name), "{name}");
    }
    assert!(!is_subscription_metadata_node_name(
        "🇸🇬【亚洲】新加坡02丨Vless"
    ));
}

#[test]
fn decode_errors_are_reported_with_their_message() {
    let error = inspect_profile(Err("bad indent".to_string())).unwrap_err();
    assert_eq!(error, "Mihomo YAML 解析失败: bad indent");
    assert!(inspect("proxies: [").unwrap_err().starts_with("Mihomo YAML 解析失败: "));
}

#[test]
fn warnings_follow_item_order_then_profile_wide_notes() {
    let summary = inspect(
        r#"
proxies:
  - plain
  - name: a
    type: vmess
  - name: b
    server: x
    port: 1
proxy-groups:
  - name: G
    type: relay
  - name: H
    type: load-balance
  - name: I
  - 3
  - name: J
    type: select
script: {}
external-controller: 0.0.0.0:9090
tun:
  enable: true
"#,
    )
    .unwrap();
    assert_eq!(
        summary.warnings,
        vec![
            "节点 1 不是对象",
            "节点 2 缺少 server",
            "节点 2 缺少 port",
            "节点 3 缺少 type",
            "代理组 3 缺少 type",
            "代理组 4 不是对象",
            "存在尚未纳入第一版 UI 的代理组类型: load-balance, relay",
            "检测到 script，第一版仅保留原始配置，不执行脚本",
            "订阅包含 external-controller，应用会覆盖为本机回环地址并使用独立 secret",
        ]
    );
    assert_eq!(summary.node_protocols, vec!["vmess"]);
    assert_eq!(summary.proxy_group_types, vec!["load-balance", "relay", "select"]);
    assert!(summary.tun_configured);
    assert!(!summary.dns_configured);
    assert_eq!(summary.format, "clash-meta/mihomo-yaml");
}

#[test]
fn empty_profile_warns_about_missing_nodes() {
    let summary = inspect("rules: []\nproxy-providers: {}\n").unwrap();
    assert_eq!(summary.node_count, 0);
    assert_eq!(summary.proxy_provider_count, 0);
    assert_eq!(summary.warnings, vec!["配置中没有 proxies 或 proxy-providers"]);
    let with_provider = inspect("proxy-providers:\n  p: {type: http}\nrule-providers:\n  r: {}\n  s: {}\n").unwrap();
    assert!(with_provider.warnings.is_empty());
    assert_eq!(with_provider.proxy_provider_count, 1);
    assert_eq!(with_provider.rule_provider_count, 2);
}

#[test]
fn unsupported_group_types_are_the_unmanaged_listed_types_in_order() {
    let summary = inspect(
        r#"
proxies: []
proxy-groups:
  - {name: a, type: relay, proxies: []}
  - {name: b, type: select, proxies: []}
  - {name: c, type: load-balance, proxies: []}
  - {name: d, type: relay, proxies: []}
  - {name: e, type: fallback, proxies: []}
"#,
    )
    .expect("profile should parse");
    assert_eq!(summary.proxy_group_types, vec!["fallback", "load-balance", "relay", "select"]);
    let unmanaged: Vec<String> = summary
        .proxy_group_types
        .iter()
        .filter(|t| !["select", "url-test", "fallback"].contains(&t.as_str()))
        .cloned()
        .collect();
    assert_eq!(summary.unsupported_group_types, unmanaged);
    assert_eq!(summary.unsupported_group_types, vec!["load-balance", "relay"]);
}

#[test]
fn metadata_verdict_ignores_surrounding_white_space_and_letter_case() {
    for name in ["剩余流量：10 GB", "Traffic Remaining: 3 GB", "Expire Date 2030", "HK 01"] {
        let padded = format!(" \t{name}\u{3000} ");
        assert_eq!(
            is_subscription_metadata_node_name(&padded),
            is_subscription_metadata_node_name(name)
        );
        assert_eq!(
            is_subscription_metadata_node_name(&name.to_ascii_uppercase()),
            is_subscription_metadata_node_name(name)
        );
    }
    assert!(is_subscription_metadata_node_name("  TRAFFIC REMAINING 1G  "));
    assert!(!is_subscription_metadata_node_name("  HK 01  "));
}
