use serylane::stability::{choose_exit, Evidence, NodeHealth, NodeTable};
use serylane::data::DataNode;
use serylane::stability_state::{
    allowed_nodes, check_stability_toggle, current_exit, parse_u64, policy_flags, probe_passed,
    still_selected, HealthState, IpValue, PolicyFacts, RoundFacts, SourceAddr, TickAction, TickEvent,
    TickRound, GROUP,
};

fn allowed(names: &[&str]) -> Vec<String> {
    names.iter().map(|n| n.to_string()).collect()
}

#[test]
fn healthy_current_is_sticky_and_one_failure_does_not_switch() {
    let mut nodes = NodeTable::new();
    let mut a = NodeHealth::default();
    a.record(100, Evidence::Probe(true));
    a.record(110, Evidence::Probe(false));
    let mut b = NodeHealth::default();
    b.record(110, Evidence::Probe(true));
    nodes.insert("a".into(), a);
    nodes.insert("b".into(), b);
    assert_eq!(choose_exit(&nodes, "a", &allowed(&["a", "b"]), 110), "a");
    nodes.record("a", 120, Evidence::Probe(false));
    assert_eq!(choose_exit(&nodes, "a", &allowed(&["a", "b"]), 120), "b");
}

#[test]
fn failed_nodes_need_cooldown_and_three_recovery_probes() {
    let mut a = NodeHealth::default();
    a.record(10, Evidence::Probe(false));
    a.record(20, Evidence::Probe(false));
    a.record(100, Evidence::Probe(true));
    assert!(!a.usable(100));
    for time in [330, 390] {
        a.record(time, Evidence::Probe(true));
        assert!(!a.usable(time));
    }
    a.record(450, Evidence::Probe(true));
    assert!(a.usable(450));
}

#[test]
fn model_interruptions_are_not_erased_by_a_401_probe() {
    let mut a = NodeHealth::default();
    a.record(100, Evidence::Probe(true));
    a.record(101, Evidence::ModelInterrupted);
    a.record(102, Evidence::Probe(true));
    a.record(103, Evidence::ModelInterrupted);
    assert!(!a.usable(103));
    assert_eq!(a.model_completed, 0);
    assert_eq!(a.model_interrupted, 2);
    let (good, total) = a.score_parts();
    assert!((good as f64) / (total as f64) < 0.5);
}

#[test]
fn no_healthy_candidate_fails_closed_and_stale_evidence_expires() {
    assert_eq!(choose_exit(&NodeTable::new(), "a", &allowed(&["a"]), 100), "REJECT");
    let mut a = NodeHealth::default();
    a.record(10, Evidence::Probe(true));
    assert!(!a.usable(200));
    a.prune(1000);
    assert!(a.samples.is_empty());
}

#[test]
fn best_score_wins_and_ties_prefer_the_earlier_name() {
    let mut nodes = NodeTable::new();
    for (name, failures) in [("c", 0), ("b", 1), ("a", 0)] {
        let mut h = NodeHealth::default();
        h.record(100, Evidence::Probe(true));
        for _ in 0..failures {
            h.record(101, Evidence::Probe(false));
            h.record(102, Evidence::Probe(true));
        }
        nodes.insert(name.into(), h);
    }
    // The current node is not allowed, so the best eligible node is picked.
    assert_eq!(choose_exit(&nodes, "x", &allowed(&["c", "b", "a"]), 110), "a");
    assert_eq!(choose_exit(&nodes, "x", &allowed(&["c", "b"]), 110), "c");
}

#[test]
fn sample_window_keeps_the_newest_ninety() {
    let mut a = NodeHealth::default();
    for t in 0..100u64 {
        a.record(1000 + t, Evidence::Probe(true));
    }
    assert_eq!(a.samples.len(), 91);
    a.prune(1100);
    assert_eq!(a.samples.len(), 90);
    assert_eq!(a.samples[0].0, 1010);
}

#[test]
fn only_observations_of_the_unchanged_exit_count() {
    let mut state = HealthState::new();
    state.begin_round(Some(1), Some(2), true, true);
    assert!(!state.snapshot.running);
    assert!(state.observe().is_none());
    state.begin_checks("node-a");
    let observation = state.observe().unwrap();
    assert_eq!(observation.node, "node-a");
    state.finish(&observation, Evidence::ModelComplete, 100);
    assert_eq!(state.nodes.get("node-a").unwrap().model_completed, 1);
    let stale = state.observe().unwrap();
    state.switched("node-b".to_string(), 101);
    state.finish(&stale, Evidence::ModelInterrupted, 102);
    assert!(state.nodes.get("node-b").is_none());
    assert_eq!(state.nodes.get("node-a").unwrap().model_interrupted, 0);
    let after_switch = state.observe().unwrap();
    state.invalidate_observations();
    assert!(state.observe().is_none());
    state.finish(&after_switch, Evidence::ModelInterrupted, 103);
    assert!(state.nodes.get("node-b").is_none());
    state.begin_checks("REJECT");
    assert!(state.observe().is_none());
}

#[test]
fn a_new_profile_revision_starts_without_evidence_and_snapshots_are_sorted() {
    let mut state = HealthState::new();
    state.begin_round(Some(1), Some(1), true, true);
    state.begin_checks("b");
    let checks = vec![("b".to_string(), true), ("a".to_string(), false)];
    let allowed = vec!["b".to_string(), "a".to_string()];
    let choice = state.record_probes(&checks, "b", &allowed, 100);
    assert_eq!(choice, "b");
    let snapshot = state.snapshot_at(100);
    let names: Vec<&str> = snapshot.nodes.iter().map(|n| n.name.as_str()).collect();
    assert_eq!(names, vec!["a", "b"]);
    assert_eq!(snapshot.nodes[1].score, Some((1, 1)));
    assert!(snapshot.nodes[1].probe_ok);
    assert!(!snapshot.nodes[0].probe_ok);
    assert_eq!(snapshot.current.as_deref(), Some("b"));
    assert!(snapshot.running);
    let epoch = state.epoch;
    state.begin_round(Some(1), Some(1), true, true);
    assert_eq!(state.epoch, epoch);
    assert!(state.nodes.get("a").is_some());
    state.begin_round(Some(1), Some(3), true, true);
    assert!(state.nodes.get("a").is_none());
    assert!(state.current.is_none());
    assert_eq!(state.epoch, epoch + 1);
    state.round_failed();
    assert_eq!(state.snapshot.message, "稳定性检查暂不可用，保留当前节点；没有关闭连接");
    state.update_policy_status(Some(9), None, false, false);
    assert_eq!(state.snapshot.profile_id, Some(9));
    assert_eq!(state.snapshot.message, "策略已应用，等待下一轮稳定性检查");
}

fn json_node(value: &serde_json::Value) -> DataNode {
    match value {
        serde_json::Value::String(s) => DataNode::Text(s.clone()),
        serde_json::Value::Bool(b) => DataNode::Bool(*b),
        serde_json::Value::Number(n) => n.as_u64().map(DataNode::UInt).unwrap_or(DataNode::Other),
        serde_json::Value::Array(items) => DataNode::Sequence(items.iter().map(json_node).collect()),
        serde_json::Value::Object(map) => DataNode::Mapping(
            map.iter().map(|(k, v)| (DataNode::Text(k.clone()), json_node(v))).collect(),
        ),
        serde_json::Value::Null => DataNode::Other,
    }
}

fn decode(text: &str) -> DataNode {
    json_node(&serde_json::from_str::<serde_json::Value>(text).unwrap())
}

#[test]
fn only_unchanged_observations_contribute_model_evidence() {
    let mut state = HealthState::new();
    state.current = Some("a".into());
    state.snapshot.running = true;
    let valid = state.observe().unwrap();
    let connections = decode(&format!(
        r#"{{"connections":[{{"metadata":{{"sourceIP":"127.0.0.1","sourcePort":"45678","host":"chatgpt.com"}},"chains":["a","{GROUP}"]}}]}}"#
    ));
    let local = IpValue::V4(0x7f00_0001);
    let ips = vec![Some(local)];
    let s = |port: u16| SourceAddr { ip: local, port };
    assert!(valid.matches_connection(&connections, s(45678), "chatgpt.com", &ips));
    assert!(!valid.matches_connection(&connections, s(45679), "chatgpt.com", &ips));
    assert!(!valid.matches_connection(&connections, s(45678), "api.openai.com", &ips));
    let direct = decode(
        r#"{"connections":[{"metadata":{"sourceIP":"127.0.0.1","sourcePort":45678,"host":"chatgpt.com"},"chains":["DIRECT"]}]}"#,
    );
    assert!(!valid.matches_connection(&direct, s(45678), "chatgpt.com", &ips));
    assert_eq!(valid.matching_connections(&connections, 45678, "chatgpt.com"), vec![0]);
    state.finish(&valid, Evidence::ModelComplete, 1000);
    assert_eq!(state.nodes.get("a").unwrap().model_completed, 1);
    let stale = state.observe().unwrap();
    state.invalidate_observations();
    state.finish(&stale, Evidence::ModelInterrupted, 1001);
    assert_eq!(state.nodes.get("a").unwrap().model_interrupted, 0);
    assert!(state.observe().is_none());
}

#[test]
fn ports_parse_like_unsigned_integers() {
    assert_eq!(parse_u64("45678"), Some(45678));
    assert_eq!(parse_u64("+7"), Some(7));
    assert_eq!(parse_u64("007"), Some(7));
    assert_eq!(parse_u64("18446744073709551615"), Some(u64::MAX));
    assert_eq!(parse_u64("18446744073709551616"), None);
    assert_eq!(parse_u64(""), None);
    assert_eq!(parse_u64("+"), None);
    assert_eq!(parse_u64("-1"), None);
    assert_eq!(parse_u64("1 "), None);
}

#[test]
fn rounds_read_the_managed_selector_and_its_offered_nodes() {
    let proxies = decode(&format!(
        r#"{{"proxies":{{"{GROUP}":{{"type":"Selector","now":"b","all":["a","b","c","DIRECT"]}}}}}}"#
    ));
    assert_eq!(current_exit(&proxies).unwrap(), "b");
    assert!(still_selected(&proxies, "b"));
    assert!(!still_selected(&proxies, "a"));
    let selected: Vec<String> = ["x", "c", "a"].iter().map(|s| s.to_string()).collect();
    assert_eq!(allowed_nodes(&selected, &proxies), vec!["c".to_string(), "a".to_string()]);
    let many: Vec<String> = (0..12).map(|i| format!("n{i}")).collect();
    let all: Vec<String> = many.iter().map(|n| format!("\"{n}\"")).collect();
    let wide = decode(&format!(
        r#"{{"proxies":{{"{GROUP}":{{"type":"Selector","all":[{}]}}}}}}"#,
        all.join(",")
    ));
    assert_eq!(allowed_nodes(&many, &wide).len(), 10);
    assert_eq!(current_exit(&wide).unwrap(), "REJECT");
    let other = decode(&format!(r#"{{"proxies":{{"{GROUP}":{{"type":"URLTest","now":"a"}}}}}}"#));
    assert!(current_exit(&other).is_err());
    assert!(!still_selected(&other, "a"));
    assert!(probe_passed(&Some(decode(r#"{"delay":120}"#))));
    assert!(!probe_passed(&Some(decode(r#"{"delay":0}"#))));
    assert!(!probe_passed(&None));
    assert_eq!(policy_flags(true, false, 2), (true, false));
    assert_eq!(policy_flags(true, true, 1), (false, true));
    assert!(check_stability_toggle(false, true, true, true, 2).is_err());
    assert!(check_stability_toggle(true, false, true, true, 2).is_err());
    assert!(check_stability_toggle(true, true, false, true, 2).is_err());
    assert!(check_stability_toggle(true, true, true, true, 1).is_err());
    assert!(check_stability_toggle(true, true, true, true, 2).is_ok());
}

fn facts(valid: bool) -> RoundFacts {
    RoundFacts {
        stopped: !valid,
        core_running: true,
        same_profile: true,
        same_revision: true,
        stability_enabled: true,
        same_exit: true,
    }
}

#[test]
fn a_round_ends_by_keeping_or_switching_or_dropping_its_results() {
    let mut state = HealthState::new();
    state.begin_round(Some(1), Some(1), true, true);
    state.begin_checks("a");
    let allowed = vec!["a".to_string(), "b".to_string()];
    let healthy = vec![("a".to_string(), true), ("b".to_string(), true)];
    assert_eq!(state.conclude_round(facts(true), &healthy, "a", &allowed, 100), None);
    let epoch = state.epoch;
    let dropped = vec![("a".to_string(), false), ("b".to_string(), true)];
    assert_eq!(state.conclude_round(facts(false), &dropped, "a", &allowed, 110), None);
    assert_eq!(state.epoch, epoch + 1);
    assert!(!state.snapshot.running);
    assert_eq!(state.nodes.get("a").unwrap().consecutive_failures, 0);
    state.begin_checks("a");
    assert_eq!(state.conclude_round(facts(true), &dropped, "a", &allowed, 120), None);
    let choice = state.conclude_round(facts(true), &dropped, "a", &allowed, 130);
    assert_eq!(choice.as_deref(), Some("b"));
}

#[test]
fn only_loopback_requests_from_the_reported_address_match() {
    let mut state = HealthState::new();
    state.current = Some("a".into());
    state.snapshot.running = true;
    let valid = state.observe().unwrap();
    let connections = decode(&format!(
        r#"{{"connections":[{{"metadata":{{"sourceIP":"10.0.0.1","sourcePort":"1","host":"h"}},"chains":["{GROUP}","a"]}},{{"metadata":{{"sourceIP":"::1","sourcePort":2,"host":"h"}},"chains":["a","{GROUP}"]}}]}}"#
    ));
    let outside = IpValue::V4(0x0a00_0001);
    let v6_loopback = IpValue::V6(1);
    let ips = vec![Some(outside), Some(v6_loopback)];
    assert!(!valid.matches_connection(&connections, SourceAddr { ip: outside, port: 1 }, "h", &ips));
    assert!(valid.matches_connection(&connections, SourceAddr { ip: v6_loopback, port: 2 }, "h", &ips));
    let other_loopback = IpValue::V4(0x7f00_0002);
    assert!(!valid.matches_connection(&connections, SourceAddr { ip: other_loopback, port: 2 }, "h", &ips));
    assert!(!valid.matches_connection(&connections, SourceAddr { ip: v6_loopback, port: 2 }, "h", &vec![]));
}

fn policy(enabled: bool) -> PolicyFacts {
    PolicyFacts {
        active: Some(1),
        revision: Some(1),
        policy_enabled: true,
        stability_enabled: enabled,
        selected_count: 2,
        core_running: true,
    }
}

#[test]
fn a_check_round_selects_at_most_once_and_only_a_different_exit() {
    let mut state = HealthState::new();
    let mut round = TickRound::new();
    assert_eq!(state.tick_step(&mut round, &TickEvent::Start(policy(false))).unwrap(), TickAction::Done);
    assert!(!state.snapshot.running && !state.snapshot.enabled);
    assert_eq!(state.tick_step(&mut round, &TickEvent::Start(policy(true))).unwrap(), TickAction::FetchProxies);
    let proxies = decode(&format!(
        r#"{{"proxies":{{"{GROUP}":{{"type":"Selector","now":"a","all":["a","b"]}}}}}}"#
    ));
    let selected = vec!["a".to_string(), "b".to_string(), "c".to_string()];
    let probe = state.tick_step(&mut round, &TickEvent::Proxies(proxies, selected.clone())).unwrap();
    assert_eq!(probe, TickAction::Probe(vec!["a".to_string(), "b".to_string()]));
    assert!(state.snapshot.running);
    let checks = vec![("a".to_string(), false), ("b".to_string(), true)];
    let probed = |t: u64| TickEvent::Probed(facts(true), checks.clone(), t);
    assert_eq!(state.tick_step(&mut round, &probed(100)).unwrap(), TickAction::Done);
    assert_eq!(state.tick_step(&mut round, &probed(110)).unwrap(), TickAction::Select("b".to_string()));
    assert_eq!(state.tick_step(&mut round, &TickEvent::Selected(111)).unwrap(), TickAction::Done);
    assert_eq!(state.current.as_deref(), Some("b"));
    assert_eq!(state.snapshot.last_switch, Some(111));
    assert_eq!(state.tick_step(&mut round, &TickEvent::Selected(112)).unwrap(), TickAction::Done);
    assert_eq!(state.snapshot.last_switch, Some(111));
    let not_loaded = decode(&format!(r#"{{"proxies":{{"{GROUP}":{{"type":"URLTest"}}}}}}"#));
    assert!(state.tick_step(&mut round, &TickEvent::Proxies(not_loaded, selected)).is_err());
}
