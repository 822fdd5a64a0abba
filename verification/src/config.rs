//! Inspection of Mihomo (Clash Meta) profiles.
use vstd::prelude::*;
use vstd::string::*;
use crate::data::{DataNode, field, get_field, has_key, contains_key};
use crate::sorted::{
    join, joined, lemma_sorted_filter, lemma_sorted_unique, sorted_insert, strictly_sorted, views,
};
use crate::text::{
    chars_of, concat2, contains, contains_chars, decimal, decimal_string, eq_str, lemma_contains_trimmed,
    lower, lower_chars, owned, trim_chars, trimmed,
};

verus! {

/// Proxy-group types the interface manages.
pub open spec fn supported_group_type(t: Seq<char>) -> bool {
    t == "select"@ || t == "url-test"@ || t == "fallback"@
}

/// Markers of the pseudo nodes that subscriptions use to show traffic, expiry
/// and notices.
pub open spec fn metadata_marker(lowered: Seq<char>) -> bool {
    ||| contains(lowered, "剩余流量"@)
    ||| contains(lowered, "距离下次重置"@)
    ||| contains(lowered, "下次重置"@)
    ||| contains(lowered, "套餐到期"@)
    ||| contains(lowered, "订阅到期"@)
    ||| contains(lowered, "建议：感到卡顿"@)
    ||| contains(lowered, "建议:感到卡顿"@)
    ||| contains(lowered, "到期时间"@)
    ||| contains(lowered, "官网:"@)
    ||| contains(lowered, "官网："@)
    ||| contains(lowered, "traffic remaining"@)
    ||| contains(lowered, "reset in"@)
    ||| contains(lowered, "expire date"@)
    ||| contains(lowered, "expiration"@)
    ||| contains(lowered, "subscription info"@)
}

fn has_marker(n: &Vec<char>, m: &str) -> (r: bool)
    ensures
        r == contains(n@, m@),
{
    contains_chars(n, &chars_of(m))
}

/// A node name that only carries subscription information (remaining traffic,
/// reset or expiry dates, notices) rather than naming a server.
pub fn is_subscription_metadata_node_name(name: &str) -> (r: bool)
    ensures
        r == metadata_marker(lower(trimmed(name@))),
{
    let n = lower_chars(&trim_chars(&chars_of(name)));
    has_marker(&n, "剩余流量") || has_marker(&n, "距离下次重置") || has_marker(&n, "下次重置")
        || has_marker(&n, "套餐到期") || has_marker(&n, "订阅到期") || has_marker(
        &n,
        "建议：感到卡顿",
    ) || has_marker(&n, "建议:感到卡顿") || has_marker(&n, "到期时间") || has_marker(&n, "官网:")
        || has_marker(&n, "官网：") || has_marker(&n, "traffic remaining") || has_marker(
        &n,
        "reset in",
    ) || has_marker(&n, "expire date") || has_marker(&n, "expiration") || has_marker(
        &n,
        "subscription info",
    )
}

/// What the interface shows about a profile before it is used.
#[derive(Debug, Clone)]
pub struct ProfileSummary {
    pub format: String,
    pub node_count: usize,
    pub proxy_group_count: usize,
    pub proxy_provider_count: usize,
    pub rule_count: usize,
    pub rule_provider_count: usize,
    pub dns_configured: bool,
    pub tun_configured: bool,
    pub node_protocols: Vec<String>,
    pub proxy_group_types: Vec<String>,
    pub unsupported_group_types: Vec<String>,
    pub warnings: Vec<String>,
}

/// The items of a sequence field; empty when missing or not a sequence.
pub open spec fn seq_field(root: DataNode, key: Seq<char>) -> Seq<DataNode> {
    match field(root, key) {
        Some(DataNode::Sequence(items)) => items@,
        _ => Seq::empty(),
    }
}

/// Number of entries of a mapping field; zero when missing or not a mapping.
pub open spec fn map_field_len(root: DataNode, key: Seq<char>) -> nat {
    match field(root, key) {
        Some(DataNode::Mapping(entries)) => entries@.len(),
        _ => 0,
    }
}

/// A string-valued field.
pub open spec fn text_field(item: DataNode, key: Seq<char>) -> Option<Seq<char>> {
    match field(item, key) {
        Some(DataNode::Text(s)) => Some(s@),
        _ => None,
    }
}

pub open spec fn is_mapping(n: DataNode) -> bool {
    n is Mapping
}

pub open spec fn numbered(prefix: Seq<char>, n: nat, suffix: Seq<char>) -> Seq<char> {
    prefix + decimal(n) + suffix
}

pub open spec fn missing_warning(n: nat, key: Seq<char>, item: DataNode) -> Seq<Seq<char>> {
    if has_key(item, key) {
        Seq::empty()
    } else {
        seq![numbered("节点 "@, n, " 缺少 "@ + key)]
    }
}

/// Warnings about the `n`-th (1-based) proxy.
pub open spec fn proxy_warnings(item: DataNode, n: nat) -> Seq<Seq<char>> {
    if !is_mapping(item) {
        seq![numbered("节点 "@, n, " 不是对象"@)]
    } else {
        (if text_field(item, "type"@) is Some {
            Seq::empty()
        } else {
            seq![numbered("节点 "@, n, " 缺少 type"@)]
        }) + missing_warning(n, "name"@, item) + missing_warning(n, "server"@, item)
            + missing_warning(n, "port"@, item)
    }
}

pub open spec fn all_proxy_warnings(items: Seq<DataNode>) -> Seq<Seq<char>>
    decreases items.len(),
{
    if items.len() == 0 {
        Seq::empty()
    } else {
        all_proxy_warnings(items.drop_last()) + proxy_warnings(items.last(), items.len())
    }
}

/// Warnings about the `n`-th (1-based) proxy group.
pub open spec fn group_warnings(item: DataNode, n: nat) -> Seq<Seq<char>> {
    if !is_mapping(item) {
        seq![numbered("代理组 "@, n, " 不是对象"@)]
    } else if text_field(item, "type"@) is None {
        seq![numbered("代理组 "@, n, " 缺少 type"@)]
    } else {
        Seq::empty()
    }
}

pub open spec fn all_group_warnings(items: Seq<DataNode>) -> Seq<Seq<char>>
    decreases items.len(),
{
    if items.len() == 0 {
        Seq::empty()
    } else {
        all_group_warnings(items.drop_last()) + group_warnings(items.last(), items.len())
    }
}

/// The string `type` values of mapping items.
pub open spec fn types_of(items: Seq<DataNode>) -> Set<Seq<char>>
    decreases items.len(),
{
    if items.len() == 0 {
        Set::empty()
    } else {
        let rest = types_of(items.drop_last());
        match (is_mapping(items.last()), text_field(items.last(), "type"@)) {
            (true, Some(t)) => rest.insert(t),
            _ => rest,
        }
    }
}

pub open spec fn unsupported_types(items: Seq<DataNode>) -> Set<Seq<char>> {
    types_of(items).filter(|t: Seq<char>| !supported_group_type(t))
}

/// Warnings about the profile as a whole, after the per-item ones.
pub open spec fn closing_warnings(root: DataNode, unsupported_sorted: Seq<Seq<char>>) -> Seq<Seq<char>> {
    (if seq_field(root, "proxies"@).len() == 0 && map_field_len(root, "proxy-providers"@) == 0 {
        seq!["配置中没有 proxies 或 proxy-providers"@]
    } else {
        Seq::empty()
    }) + (if unsupported_sorted.len() > 0 {
        seq!["存在尚未纳入第一版 UI 的代理组类型: "@ + joined(unsupported_sorted, ", "@)]
    } else {
        Seq::empty()
    }) + (if has_key(root, "script"@) {
        seq!["检测到 script，第一版仅保留原始配置，不执行脚本"@]
    } else {
        Seq::empty()
    }) + (if has_key(root, "external-controller"@) {
        seq!["订阅包含 external-controller，应用会覆盖为本机回环地址并使用独立 secret"@]
    } else {
        Seq::empty()
    })
}

/// `v` lists exactly the strings of `s`, ascending.
pub open spec fn lists_set(v: Vec<String>, s: Set<Seq<char>>) -> bool {
    strictly_sorted(views(v@)) && views(v@).to_set() == s
}

/// The summary of a decoded profile whose root is a mapping.
pub open spec fn summarizes(s: ProfileSummary, root: DataNode) -> bool {
    let proxies = seq_field(root, "proxies"@);
    let groups = seq_field(root, "proxy-groups"@);
    &&& s.format@ == "clash-meta/mihomo-yaml"@
    &&& s.node_count == proxies.len()
    &&& s.proxy_group_count == groups.len()
    &&& s.proxy_provider_count == map_field_len(root, "proxy-providers"@)
    &&& s.rule_count == seq_field(root, "rules"@).len()
    &&& s.rule_provider_count == map_field_len(root, "rule-providers"@)
    &&& s.dns_configured == has_key(root, "dns"@)
    &&& s.tun_configured == has_key(root, "tun"@)
    &&& lists_set(s.node_protocols, types_of(proxies))
    &&& lists_set(s.proxy_group_types, types_of(groups))
    &&& lists_set(s.unsupported_group_types, unsupported_types(groups))
    &&& views(s.warnings@) == all_proxy_warnings(proxies) + all_group_warnings(groups)
        + closing_warnings(root, views(s.unsupported_group_types@))
}

pub open spec fn parse_failure_message(error: Seq<char>) -> Seq<char> {
    "Mihomo YAML 解析失败: "@ + error
}

pub open spec fn root_message() -> Seq<char> {
    "Mihomo 配置根节点必须是 YAML 对象"@
}


/// The items of an optional sequence; a missing sequence has none.
pub open spec fn items_of(v: Option<&Vec<DataNode>>) -> Seq<DataNode> {
    match v {
        Some(items) => items@,
        None => Seq::empty(),
    }
}

fn sequence_field<'a>(root: &'a DataNode, key: &str) -> (r: Option<&'a Vec<DataNode>>)
    ensures
        items_of(r) == seq_field(*root, key@),
{
    match get_field(root, key) {
        Some(DataNode::Sequence(items)) => Some(items),
        _ => None,
    }
}

fn mapping_len(root: &DataNode, key: &str) -> (r: usize)
    ensures
        r == map_field_len(*root, key@),
{
    match get_field(root, key) {
        Some(DataNode::Mapping(entries)) => entries.len(),
        _ => 0,
    }
}

fn string_field<'a>(item: &'a DataNode, key: &str) -> (r: Option<&'a String>)
    ensures
        match text_field(*item, key@) {
            Some(t) => r is Some && r->0@ == t,
            None => r is None,
        },
{
    match get_field(item, key) {
        Some(DataNode::Text(s)) => Some(s),
        _ => None,
    }
}

fn numbered_text(prefix: &str, n: usize, suffix: &str) -> (r: String)
    ensures
        r@ == numbered(prefix@, n as nat, suffix@),
{
    let mut out = owned(prefix);
    let digits = decimal_string(n as u64);
    out.append(digits.as_str());
    out.append(suffix);
    out
}

fn push_missing(warnings: &mut Vec<String>, item: &DataNode, n: usize, key: &str)
    ensures
        views(final(warnings)@) == views(old(warnings)@) + missing_warning(n as nat, key@, *item),
{
    if !contains_key(item, key) {
        let suffix = concat2(" 缺少 ", key);
        let w = numbered_text("节点 ", n, suffix.as_str());
        warnings.push(w);
        proof {
            assert(views(warnings@) =~= views(old(warnings)@) + missing_warning(n as nat, key@, *item));
        }
    } else {
        assert(views(warnings@) =~= views(old(warnings)@) + missing_warning(n as nat, key@, *item));
    }
}

fn push_text(warnings: &mut Vec<String>, w: String)
    ensures
        views(final(warnings)@) == views(old(warnings)@).push(w@),
{
    warnings.push(w);
    assert(views(warnings@) =~= views(old(warnings)@).push(w@));
}

proof fn lemma_types_step(items: Seq<DataNode>, i: int)
    requires
        0 <= i < items.len(),
    ensures
        types_of(items.take(i + 1)) == (match (is_mapping(items[i]), text_field(items[i], "type"@)) {
            (true, Some(t)) => types_of(items.take(i)).insert(t),
            _ => types_of(items.take(i)),
        }),
        all_proxy_warnings(items.take(i + 1)) == all_proxy_warnings(items.take(i)) + proxy_warnings(
            items[i],
            (i + 1) as nat,
        ),
        all_group_warnings(items.take(i + 1)) == all_group_warnings(items.take(i)) + group_warnings(
            items[i],
            (i + 1) as nat,
        ),
{
    assert(items.take(i + 1).drop_last() =~= items.take(i));
}

/// Inserts `t` into a listed set.
fn add_to_set(v: &mut Vec<String>, t: &str)
    requires
        strictly_sorted(views(old(v)@)),
    ensures
        strictly_sorted(views(final(v)@)),
        views(final(v)@).to_set() == views(old(v)@).to_set().insert(t@),
{
    sorted_insert(v, t);
}

fn is_supported_group_type(t: &str) -> (r: bool)
    ensures
        r == supported_group_type(t@),
{
    eq_str(t, "select") || eq_str(t, "url-test") || eq_str(t, "fallback")
}

/// Warnings and protocol set of the proxies of a profile.
fn scan_proxies(proxies: &Vec<DataNode>) -> (r: (Vec<String>, Vec<String>))
    ensures
        views(r.0@) == all_proxy_warnings(proxies@),
        lists_set(r.1, types_of(proxies@)),
{
    let mut warnings: Vec<String> = Vec::new();
    let mut protocols: Vec<String> = Vec::new();
    let mut i: usize = 0;
    proof {
        assert(proxies@.take(0) =~= Seq::<DataNode>::empty());
        assert(views(protocols@).to_set() =~= Set::<Seq<char>>::empty());
    }
    while i < proxies.len()
        invariant
            i <= proxies.len(),
            views(warnings@) == all_proxy_warnings(proxies@.take(i as int)),
            strictly_sorted(views(protocols@)),
            views(protocols@).to_set() == types_of(proxies@.take(i as int)),
        decreases proxies.len() - i,
    {
        proof {
            lemma_types_step(proxies@, i as int);
        }
        let item = &proxies[i];
        let n = i + 1;
        match item {
            DataNode::Mapping(_) => {
                match string_field(item, "type") {
                    Some(t) => {
                        add_to_set(&mut protocols, t.as_str());
                    },
                    None => {
                        push_text(&mut warnings, numbered_text("节点 ", n, " 缺少 type"));
                    },
                }
                push_missing(&mut warnings, item, n, "name");
                push_missing(&mut warnings, item, n, "server");
                push_missing(&mut warnings, item, n, "port");
                proof {
                    reveal_strlit("name");
                    reveal_strlit("server");
                    reveal_strlit("port");
                    reveal_strlit(" 缺少 type");
                    reveal_strlit(" 缺少 ");
                    assert(" 缺少 "@ + "type"@ =~= " 缺少 type"@) by {
                        reveal_strlit("type");
                    }
                }
                assert(views(warnings@) =~= all_proxy_warnings(proxies@.take(i + 1)));
            },
            _ => {
                push_text(&mut warnings, numbered_text("节点 ", n, " 不是对象"));
            },
        }
        i = i + 1;
    }
    assert(proxies@.take(proxies.len() as int) =~= proxies@);
    (warnings, protocols)
}

/// Warnings, type set and unsupported-type set of the proxy groups of a profile.
fn scan_groups(groups: &Vec<DataNode>) -> (r: (Vec<String>, Vec<String>, Vec<String>))
    ensures
        views(r.0@) == all_group_warnings(groups@),
        lists_set(r.1, types_of(groups@)),
        lists_set(r.2, unsupported_types(groups@)),
{
    let mut warnings: Vec<String> = Vec::new();
    let mut types: Vec<String> = Vec::new();
    let mut unsupported: Vec<String> = Vec::new();
    let mut i: usize = 0;
    proof {
        assert(groups@.take(0) =~= Seq::<DataNode>::empty());
        assert(views(types@).to_set() =~= Set::<Seq<char>>::empty());
        assert(unsupported_types(groups@.take(0)) =~= Set::<Seq<char>>::empty());
        assert(views(unsupported@).to_set() =~= Set::<Seq<char>>::empty());
    }
    while i < groups.len()
        invariant
            i <= groups.len(),
            views(warnings@) == all_group_warnings(groups@.take(i as int)),
            strictly_sorted(views(types@)),
            views(types@).to_set() == types_of(groups@.take(i as int)),
            strictly_sorted(views(unsupported@)),
            views(unsupported@).to_set() == unsupported_types(groups@.take(i as int)),
        decreases groups.len() - i,
    {
        proof {
            lemma_types_step(groups@, i as int);
        }
        let item = &groups[i];
        let n = i + 1;
        match item {
            DataNode::Mapping(_) => {
                match string_field(item, "type") {
                    Some(t) => {
                        add_to_set(&mut types, t.as_str());
                        if !is_supported_group_type(t.as_str()) {
                            add_to_set(&mut unsupported, t.as_str());
                        }
                        proof {
                            assert(unsupported_types(groups@.take(i + 1)) =~= (if supported_group_type(t@) {
                                unsupported_types(groups@.take(i as int))
                            } else {
                                unsupported_types(groups@.take(i as int)).insert(t@)
                            }));
                            assert(views(warnings@) =~= all_group_warnings(groups@.take(i + 1)));
                        }
                    },
                    None => {
                        push_text(&mut warnings, numbered_text("代理组 ", n, " 缺少 type"));
                    },
                }
            },
            _ => {
                push_text(&mut warnings, numbered_text("代理组 ", n, " 不是对象"));
            },
        }
        i = i + 1;
    }
    assert(groups@.take(groups.len() as int) =~= groups@);
    (warnings, types, unsupported)
}

/// Appends copies of `more` to `warnings`.
fn append_all(warnings: &mut Vec<String>, more: &Vec<String>)
    ensures
        views(final(warnings)@) == views(old(warnings)@) + views(more@),
{
    let ghost start = views(warnings@);
    let mut k: usize = 0;
    while k < more.len()
        invariant
            k <= more.len(),
            views(warnings@) == start + views(more@).take(k as int),
        decreases more.len() - k,
    {
        let w = owned(more[k].as_str());
        push_text(warnings, w);
        k = k + 1;
        assert(views(more@).take(k as int) =~= views(more@).take(k - 1).push(more@[k - 1]@));
    }
    assert(views(more@).take(more.len() as int) =~= views(more@));
}

/// Appends the profile-wide warnings.
fn push_closing(
    warnings: &mut Vec<String>,
    root: &DataNode,
    proxy_count: usize,
    provider_count: usize,
    unsupported: &Vec<String>,
)
    requires
        proxy_count == seq_field(*root, "proxies"@).len(),
        provider_count == map_field_len(*root, "proxy-providers"@),
    ensures
        views(final(warnings)@) == views(old(warnings)@) + closing_warnings(*root, views(unsupported@)),
{
    let ghost w0 = views(warnings@);
    if proxy_count == 0 && provider_count == 0 {
        push_text(warnings, owned("配置中没有 proxies 或 proxy-providers"));
    }
    let ghost w1 = views(warnings@);
    if unsupported.len() > 0 {
        let listed = join(unsupported, ", ");
        push_text(warnings, concat2("存在尚未纳入第一版 UI 的代理组类型: ", listed.as_str()));
    }
    let ghost w2 = views(warnings@);
    if contains_key(root, "script") {
        push_text(warnings, owned("检测到 script，第一版仅保留原始配置，不执行脚本"));
    }
    let ghost w3 = views(warnings@);
    if contains_key(root, "external-controller") {
        push_text(
            warnings,
            owned("订阅包含 external-controller，应用会覆盖为本机回环地址并使用独立 secret"),
        );
    }
    assert(views(warnings@) =~= w0 + closing_warnings(*root, views(unsupported@)));
}

/// Summarizes a decoded Mihomo profile: counts, protocol and group-type sets,
/// unsupported group types and warnings. `document` is the outcome of decoding
/// the YAML text (its error message on failure).
pub fn inspect_profile(document: Result<DataNode, String>) -> (r: Result<ProfileSummary, String>)
    ensures
        match document {
            Err(e) => r is Err && r->Err_0@ == parse_failure_message(e@),
            Ok(root) => if is_mapping(root) {
                r is Ok && summarizes(r->Ok_0, root)
            } else {
                r is Err && r->Err_0@ == root_message()
            },
        },
{
    let root = match document {
        Err(e) => {
            return Err(concat2("Mihomo YAML 解析失败: ", e.as_str()));
        },
        Ok(root) => root,
    };
    match &root {
        DataNode::Mapping(_) => {},
        _ => {
            return Err(owned("Mihomo 配置根节点必须是 YAML 对象"));
        },
    }
    let proxies = sequence_field(&root, "proxies");
    let groups = sequence_field(&root, "proxy-groups");
    let provider_count = mapping_len(&root, "proxy-providers");
    let rule_count = match sequence_field(&root, "rules") {
        Some(items) => items.len(),
        None => 0,
    };
    let rule_provider_count = mapping_len(&root, "rule-providers");
    let empty: Vec<DataNode> = Vec::new();
    let proxy_items = match proxies {
        Some(items) => items,
        None => &empty,
    };
    let group_items = match groups {
        Some(items) => items,
        None => &empty,
    };
    let (mut warnings, node_protocols) = scan_proxies(proxy_items);
    let (group_warnings, proxy_group_types, unsupported_group_types) = scan_groups(group_items);
    append_all(&mut warnings, &group_warnings);
    push_closing(&mut warnings, &root, proxy_items.len(), provider_count, &unsupported_group_types);
    let summary = ProfileSummary {
        format: owned("clash-meta/mihomo-yaml"),
        node_count: proxy_items.len(),
        proxy_group_count: group_items.len(),
        proxy_provider_count: provider_count,
        rule_count,
        rule_provider_count,
        dns_configured: contains_key(&root, "dns"),
        tun_configured: contains_key(&root, "tun"),
        node_protocols,
        proxy_group_types,
        unsupported_group_types,
        warnings,
    };
    Ok(summary)
}


/// The unsupported group types of a profile summary are its group types that the
/// interface does not manage, in the same ascending order.
pub proof fn unsupported_types_are_the_unmanaged_group_types(s: ProfileSummary, root: DataNode)
    requires
        summarizes(s, root),
    ensures
        views(s.unsupported_group_types@) == views(s.proxy_group_types@).filter(
            |t: Seq<char>| !supported_group_type(t),
        ),
{
    let pred = |t: Seq<char>| !supported_group_type(t);
    let g = views(s.proxy_group_types@);
    lemma_sorted_filter(g, pred);
    assert(g.to_set().filter(pred) =~= unsupported_types(seq_field(root, "proxy-groups"@)));
    lemma_sorted_unique(views(s.unsupported_group_types@), g.filter(pred));
}


/// White space around a node name never changes whether it is taken for
/// subscription information: the verdict is that of the whole lower-cased name.
pub proof fn surrounding_white_space_never_changes_the_metadata_verdict(name: Seq<char>)
    ensures
        metadata_marker(lower(trimmed(name))) == metadata_marker(lower(name)),
{
    reveal_strlit("剩余流量");
    lemma_contains_trimmed(name, "剩余流量"@);
    reveal_strlit("距离下次重置");
    lemma_contains_trimmed(name, "距离下次重置"@);
    reveal_strlit("下次重置");
    lemma_contains_trimmed(name, "下次重置"@);
    reveal_strlit("套餐到期");
    lemma_contains_trimmed(name, "套餐到期"@);
    reveal_strlit("订阅到期");
    lemma_contains_trimmed(name, "订阅到期"@);
    reveal_strlit("建议：感到卡顿");
    lemma_contains_trimmed(name, "建议：感到卡顿"@);
    reveal_strlit("建议:感到卡顿");
    lemma_contains_trimmed(name, "建议:感到卡顿"@);
    reveal_strlit("到期时间");
    lemma_contains_trimmed(name, "到期时间"@);
    reveal_strlit("官网:");
    lemma_contains_trimmed(name, "官网:"@);
    reveal_strlit("官网：");
    lemma_contains_trimmed(name, "官网："@);
    reveal_strlit("traffic remaining");
    lemma_contains_trimmed(name, "traffic remaining"@);
    reveal_strlit("reset in");
    lemma_contains_trimmed(name, "reset in"@);
    reveal_strlit("expire date");
    lemma_contains_trimmed(name, "expire date"@);
    reveal_strlit("expiration");
    lemma_contains_trimmed(name, "expiration"@);
    reveal_strlit("subscription info");
    lemma_contains_trimmed(name, "subscription info"@);
}

/// Names that differ only in ASCII letter case get the same verdict.
pub proof fn letter_case_never_changes_the_metadata_verdict(a: Seq<char>, b: Seq<char>)
    requires
        lower(a) == lower(b),
    ensures
        metadata_marker(lower(trimmed(a))) == metadata_marker(lower(trimmed(b))),
{
    surrounding_white_space_never_changes_the_metadata_verdict(a);
    surrounding_white_space_never_changes_the_metadata_verdict(b);
}


/// The interface manages exactly the `select`, `url-test` and `fallback` groups:
/// a group type is listed as unsupported exactly when the profile uses it and it
/// is none of these three.
pub proof fn unsupported_types_are_all_but_select_url_test_and_fallback(s: ProfileSummary, root: DataNode, t: Seq<char>)
    requires
        summarizes(s, root),
    ensures
        views(s.unsupported_group_types@).contains(t) <==> (views(s.proxy_group_types@).contains(t)
            && t != "select"@ && t != "url-test"@ && t != "fallback"@),
{
    let groups = seq_field(root, "proxy-groups"@);
    assert(views(s.unsupported_group_types@).to_set().contains(t) == views(s.unsupported_group_types@).contains(t));
    assert(views(s.proxy_group_types@).to_set().contains(t) == views(s.proxy_group_types@).contains(t));
    assert(unsupported_types(groups).contains(t) == (types_of(groups).contains(t) && !supported_group_type(t)));
}

} // verus!
