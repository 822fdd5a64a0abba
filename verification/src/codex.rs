//! A reversible lease on two keys of the Codex configuration: what attaching
//! installs, what the interface shows, and what restoring puts back. The caller
//! reads and writes the files; the TOML text is read and edited here.
use vstd::prelude::*;
use vstd::string::*;
use vstd::utf8::encode_utf8;
use crate::digest::{sha256_hex, sha256_hex_of};
use crate::error::AppError;
use crate::text::{
    concat2, contains, contains_chars, chars_of, decimal, decimal_string, eq_str, owned, string_of,
    substring_from,
};
use crate::weblink::{UrlParts, parse_url, url_parts_of};
use crate::toml_text::{
    parses_toml, toml_copy_item, toml_entry, toml_entry_text, toml_has, toml_has_key, toml_is_table,
    toml_nested_str, toml_nested_str_at, toml_parses, toml_remove, toml_remove_nested, toml_set_nested_bool,
    toml_set_nested_str, toml_set_nested_table, toml_set_str, toml_set_table, toml_str, toml_str_at,
    toml_table, toml_table_len, toml_table_size, toml_with_item_of, toml_with_nested_bool,
    toml_with_nested_str, toml_with_nested_table, toml_with_str, toml_with_table, toml_without_key,
    toml_without_nested,
};

verus! {

/// Largest configuration file read or written (2 MiB).
pub const MAX_CONFIG_BYTES: u64 = 2097152;

/// Key of the provider entry the lease installs (kept from earlier releases).
pub const PROVIDER: &'static str = "routedeck";

/// The journal of an active lease.
#[derive(Debug, Clone)]
pub struct Lease {
    pub config_path: String,
    pub original: Option<String>,
    pub installed: String,
    pub backup_name: String,
}

/// What the interface shows about the Codex configuration.
#[derive(Debug, Clone)]
pub struct CodexStatus {
    pub config_revision: String,
    pub attached: bool,
    pub has_backup: bool,
    pub provider: String,
    pub endpoint: Option<String>,
    pub warning: Option<String>,
    pub backup_path: Option<String>,
}

pub open spec fn opt_view(s: Option<String>) -> Option<Seq<char>> {
    match s {
        Some(t) => Some(t@),
        None => None,
    }
}

/// The text whose digest identifies a configuration state; an absent file and an
/// empty one differ.
pub open spec fn revision_text(text: Option<Seq<char>>) -> Seq<char> {
    match text {
        Some(t) => "true:"@ + t,
        None => "false:"@,
    }
}

pub open spec fn spec_revision(text: Option<Seq<char>>) -> Seq<char> {
    sha256_hex(encode_utf8(revision_text(text)))
}

/// The revision of a configuration state, as the interface confirms it.
pub fn revision(text: &Option<String>) -> (r: String)
    ensures
        r@ == spec_revision(opt_view(*text)),
{
    let source = match text {
        Some(t) => concat2("true:", t.as_str()),
        None => owned("false:"),
    };
    sha256_hex_of(source.as_str().as_bytes())
}

pub open spec fn corrupt_lease_message() -> Seq<char> {
    "Codex 恢复记录损坏，请保留备份并手动核对"@
}

/// The lease journal as read: absent, decoded, or present but undecodable.
pub open spec fn lease_state(journal_present: bool, decoded: Option<Lease>) -> Result<Option<Lease>, Seq<char>> {
    if !journal_present {
        Ok(None)
    } else {
        match decoded {
            Some(l) => Ok(Some(l)),
            None => Err(corrupt_lease_message()),
        }
    }
}

/// Whether a lease is active, given whether its journal exists and what decoding
/// it gave. A journal that does not decode is an error, never "no lease".
pub fn has_lease(journal_present: bool, decoded: &Option<Lease>) -> (r: Result<bool, AppError>)
    ensures
        match lease_state(journal_present, *decoded) {
            Ok(l) => r == Ok::<bool, AppError>(l is Some),
            Err(m) => r matches Err(AppError::Config(x)) && x@ == m,
        },
{
    if !journal_present {
        return Ok(false);
    }
    match decoded {
        Some(_) => Ok(true),
        None => Err(AppError::Config(owned("Codex 恢复记录损坏，请保留备份并手动核对"))),
    }
}

pub open spec fn changed_underneath_message() -> Seq<char> {
    "Codex 配置刚被其他程序修改，请刷新后重试；未覆盖其修改"@
}

pub open spec fn too_large_message() -> Seq<char> {
    "配置内容超过大小限制"@
}

fn same_opt(a: &Option<String>, b: &Option<String>) -> (r: bool)
    ensures
        r == (opt_view(*a) == opt_view(*b)),
{
    match (a, b) {
        (Some(x), Some(y)) => eq_str(x.as_str(), y.as_str()),
        (None, None) => true,
        _ => false,
    }
}

/// Whether `after` may replace the file: only if the file is still exactly what
/// the change was computed from, and the new content is within the size limit.
pub fn compare_and_write(current: &Option<String>, before: &Option<String>, after: &str) -> (r: Result<(), AppError>)
    ensures
        opt_view(*current) != opt_view(*before) ==> (r matches Err(AppError::Conflict(m)) && m@
            == changed_underneath_message()),
        opt_view(*current) == opt_view(*before) && encode_utf8(after@).len() > MAX_CONFIG_BYTES
            ==> (r matches Err(AppError::Io(m)) && m@ == too_large_message()),
        opt_view(*current) == opt_view(*before) && encode_utf8(after@).len() <= MAX_CONFIG_BYTES
            ==> r is Ok,
{
    if !same_opt(current, before) {
        return Err(AppError::Conflict(owned("Codex 配置刚被其他程序修改，请刷新后重试；未覆盖其修改")));
    }
    if after.as_bytes().len() as u64 > MAX_CONFIG_BYTES {
        return Err(AppError::Io(owned("配置内容超过大小限制")));
    }
    Ok(())
}

/// What is read from a configuration that parsed as TOML: the selected provider
/// key, the `base_url` text of the provider in use, the TOML text of the
/// `routedeck` entry, and whether a `profile` key exists.
#[derive(Debug, Clone)]
pub struct ConfigFacts {
    pub model_provider: Option<String>,
    pub base_url: Option<String>,
    pub provider_entry: Option<String>,
    pub has_profile: bool,
}

/// The configuration still holds exactly the provider the lease installed, and
/// selects it.
pub open spec fn spec_owns(doc: ConfigFacts, installed: ConfigFacts) -> bool {
    opt_view(doc.model_provider) == Some(PROVIDER@) && opt_view(doc.provider_entry) == opt_view(
        installed.provider_entry,
    )
}

pub fn owns(doc: &ConfigFacts, installed: &ConfigFacts) -> (r: bool)
    ensures
        r == spec_owns(*doc, *installed),
{
    let selected = match &doc.model_provider {
        Some(p) => eq_str(p.as_str(), PROVIDER),
        None => false,
    };
    selected && same_opt(&doc.provider_entry, &installed.provider_entry)
}

/// The lease is attached: it belongs to this configuration path and its installed
/// provider is still in place.
pub open spec fn spec_attached(lease: Option<Lease>, config_path: Seq<char>, doc: ConfigFacts, installed: Option<ConfigFacts>) -> bool {
    lease matches Some(l) && l.config_path@ == config_path && (installed matches Some(i) && spec_owns(doc, i))
}

/// `scheme://host[:port]` of an endpoint, `?` for a missing host.
pub open spec fn origin_text(p: (Seq<char>, Option<Seq<char>>, Option<u16>, Seq<char>)) -> Seq<char> {
    p.0 + "://"@ + (match p.1 {
        Some(h) => h,
        None => "?"@,
    }) + (match p.2 {
        Some(port) => ":"@ + decimal(port as nat),
        None => Seq::empty(),
    })
}

pub open spec fn endpoint_label(base_url: Option<Seq<char>>) -> Option<Seq<char>> {
    match base_url {
        Some(u) => match url_parts_of(u) {
            Some(p) => Some(origin_text(p)),
            None => None,
        },
        None => None,
    }
}

pub open spec fn unparsable_provider() -> Seq<char> {
    "配置无法解析"@
}

pub open spec fn unparsable_warning() -> Seq<char> {
    "Codex TOML 配置无法解析；接入与恢复会拒绝覆盖，请先修复配置。"@
}

pub open spec fn conflict_warning() -> Seq<char> {
    "配置已被其他程序修改；Serylane 不会覆盖冲突字段。请查看备份后恢复。"@
}

pub open spec fn profile_warning() -> Seq<char> {
    "检测到 Codex profile；其设置可能覆盖当前接入，请在新会话核对实际连接。"@
}

pub open spec fn cc_switch_warning() -> Seq<char> {
    "当前使用 CC Switch 接入；恢复后仍需其路由服务运行。"@
}

/// The provider in use: the configured one, `openai` by default.
pub open spec fn provider_name(f: ConfigFacts) -> Seq<char> {
    match f.model_provider {
        Some(p) => p@,
        None => "openai"@,
    }
}

/// The warning shown for a parsed configuration.
pub open spec fn status_warning(lease_present: bool, attached: bool, f: ConfigFacts) -> Option<Seq<char>> {
    if lease_present && !attached {
        Some(conflict_warning())
    } else if f.has_profile {
        Some(profile_warning())
    } else if contains(provider_name(f), "cc-switch"@) {
        Some(cc_switch_warning())
    } else {
        None
    }
}

/// The status of the configuration `text` (`facts` is `None` when it did not
/// parse) under the lease journal, if any.
pub open spec fn status_matches(
    s: CodexStatus,
    text: Option<Seq<char>>,
    lease: Option<Lease>,
    config_path: Seq<char>,
    backup_path: Option<Seq<char>>,
    facts: Option<ConfigFacts>,
    installed: Option<ConfigFacts>,
) -> bool {
    &&& s.config_revision@ == spec_revision(text)
    &&& s.has_backup == lease is Some
    &&& opt_view(s.backup_path) == backup_path
    &&& match facts {
        None => {
            &&& !s.attached
            &&& s.provider@ == unparsable_provider()
            &&& s.endpoint is None
            &&& opt_view(s.warning) == Some(unparsable_warning())
        },
        Some(f) => {
            &&& s.attached == spec_attached(lease, config_path, f, installed)
            &&& s.provider@ == provider_name(f)
            &&& opt_view(s.endpoint) == endpoint_label(opt_view(f.base_url))
            &&& opt_view(s.warning) == status_warning(lease is Some, s.attached, f)
        },
    }
}

fn origin(parts: &UrlParts) -> (r: String)
    ensures
        r@ == origin_text(crate::weblink::parts_view(*parts)),
{
    let mut out = concat2(parts.scheme.as_str(), "://");
    match &parts.host {
        Some(h) => out.append(h.as_str()),
        None => out.append("?"),
    }
    match parts.port {
        Some(p) => {
            out.append(":");
            let digits = decimal_string(p as u64);
            out.append(digits.as_str());
        },
        None => {},
    }
    out
}

fn label_endpoint(base_url: &Option<String>) -> (r: Option<String>)
    ensures
        opt_view(r) == endpoint_label(opt_view(*base_url)),
{
    match base_url {
        Some(u) => match parse_url(u.as_str()) {
            Some(parts) => Some(origin(&parts)),
            None => None,
        },
        None => None,
    }
}

fn copy_opt(s: &Option<String>) -> (r: Option<String>)
    ensures
        opt_view(r) == opt_view(*s),
{
    match s {
        Some(t) => Some(owned(t.as_str())),
        None => None,
    }
}

/// The status shown for the Codex configuration `text` at `config_path`, read
/// as `facts` (`None`: not TOML), with the lease journal and the facts of the
/// configuration the lease installed.
pub fn status(
    text: &Option<String>,
    config_path: &str,
    lease: &Option<Lease>,
    backup_path: &Option<String>,
    facts: &Option<ConfigFacts>,
    installed: &Option<ConfigFacts>,
) -> (r: CodexStatus)
    ensures
        status_matches(r, opt_view(*text), *lease, config_path@, opt_view(*backup_path), *facts, *installed),
{
    let config_revision = revision(text);
    let lease_present = lease.is_some();
    match facts {
        None => CodexStatus {
            config_revision,
            attached: false,
            has_backup: lease_present,
            provider: owned("配置无法解析"),
            endpoint: None,
            warning: Some(owned("Codex TOML 配置无法解析；接入与恢复会拒绝覆盖，请先修复配置。")),
            backup_path: copy_opt(backup_path),
        },
        Some(f) => {
            let provider = match &f.model_provider {
                Some(p) => owned(p.as_str()),
                None => owned("openai"),
            };
            let endpoint = label_endpoint(&f.base_url);
            let attached = match lease {
                Some(l) => eq_str(l.config_path.as_str(), config_path) && match installed {
                    Some(i) => owns(f, i),
                    None => false,
                },
                None => false,
            };
            let warning = if lease_present && !attached {
                Some(owned("配置已被其他程序修改；Serylane 不会覆盖冲突字段。请查看备份后恢复。"))
            } else if f.has_profile {
                Some(owned("检测到 Codex profile；其设置可能覆盖当前接入，请在新会话核对实际连接。"))
            } else if contains_chars(&chars_of(provider.as_str()), &chars_of("cc-switch")) {
                Some(owned("当前使用 CC Switch 接入；恢复后仍需其路由服务运行。"))
            } else {
                None
            };
            CodexStatus {
                config_revision,
                attached,
                has_backup: lease_present,
                provider,
                endpoint,
                warning,
                backup_path: copy_opt(backup_path),
            }
        },
    }
}

pub open spec fn conflict_error(e: AppError, m: Seq<char>) -> bool {
    e matches AppError::Conflict(x) && x@ == m
}

pub open spec fn config_error(e: AppError, m: Seq<char>) -> bool {
    e matches AppError::Config(x) && x@ == m
}

pub open spec fn unparsable_message() -> Seq<char> {
    "Codex TOML 配置无法解析，未覆盖"@
}

/// The checks before attaching, in order: no lease yet, the configuration is the
/// one the user confirmed, it parses, the provider key is free, and
/// `model_providers` is a table.
pub fn check_attach(
    lease_present: bool,
    before: &Option<String>,
    expected: &str,
    facts: &Option<ConfigFacts>,
    providers_not_table: bool,
) -> (r: Result<(), AppError>)
    ensures
        lease_present ==> conflict_error(r->Err_0, "已有 Codex 接入备份，请先恢复再更换模式"@) && r is Err,
        !lease_present && spec_revision(opt_view(*before)) != expected@ ==> r is Err && conflict_error(
            r->Err_0,
            "Codex 配置已变化，请刷新后重新确认"@,
        ),
        !lease_present && spec_revision(opt_view(*before)) == expected@ ==> match *facts {
            None => r is Err && config_error(r->Err_0, unparsable_message()),
            Some(f) => if f.provider_entry is Some || opt_view(f.model_provider) == Some(PROVIDER@) {
                r is Err && conflict_error(r->Err_0, "Codex 已有同名提供方（兼容标识 routedeck），未覆盖"@)
            } else if providers_not_table {
                r is Err && conflict_error(r->Err_0, "model_providers 使用非标准表结构，请先自行检查"@)
            } else {
                r is Ok
            },
        },
{
    if lease_present {
        return Err(AppError::Conflict(owned("已有 Codex 接入备份，请先恢复再更换模式")));
    }
    let current = revision(before);
    if !eq_str(current.as_str(), expected) {
        return Err(AppError::Conflict(owned("Codex 配置已变化，请刷新后重新确认")));
    }
    let f = match facts {
        Some(f) => f,
        None => {
            return Err(AppError::Config(owned("Codex TOML 配置无法解析，未覆盖")));
        },
    };
    let ours = match &f.model_provider {
        Some(p) => eq_str(p.as_str(), PROVIDER),
        None => false,
    };
    if f.provider_entry.is_some() || ours {
        return Err(AppError::Conflict(owned("Codex 已有同名提供方（兼容标识 routedeck），未覆盖")));
    }
    if providers_not_table {
        return Err(AppError::Conflict(owned("model_providers 使用非标准表结构，请先自行检查")));
    }
    Ok(())
}

/// What restoring writes.
#[derive(Debug, Clone, PartialEq, Eq)]
pub enum RestoreWrite {
    /// The file is already the original: only the journal goes.
    Nothing,
    /// The file is exactly what was installed: the original text comes back.
    Original(String),
    /// Only the two leased keys are put back, other edits are kept.
    Edited,
}

/// `r` is what restoring decides for the lease `lease` and the configuration
/// `before` at `config_path`, with the facts `doc` of the current file and
/// `installed` of the installed text.
pub open spec fn restore_planned(
    r: Result<RestoreWrite, AppError>,
    lease: Lease,
    config_path: Seq<char>,
    before: Option<String>,
    expected: Option<String>,
    doc: Option<ConfigFacts>,
    installed: Option<ConfigFacts>,
    original_parses: bool,
) -> bool {
    &&& (lease.config_path@ != config_path ==> r is Err && conflict_error(
            r->Err_0,
            "Codex 配置目录已变化，未向不同目录恢复"@,
        ))
    &&& (lease.config_path@ == config_path && (expected matches Some(e) && spec_revision(
            opt_view(before),
        ) != e@) ==> r is Err && conflict_error(r->Err_0, "Codex 配置已变化，请刷新后重试"@))
    &&& (lease.config_path@ == config_path && !(expected matches Some(e) && spec_revision(
            opt_view(before),
        ) != e@) ==> if opt_view(before) == opt_view(lease.original) {
            r == Ok::<RestoreWrite, AppError>(RestoreWrite::Nothing)
        } else if doc is None || installed is None {
            r is Err && config_error(r->Err_0, unparsable_message())
        } else if !spec_owns(doc->0, installed->0) {
            r is Err && conflict_error(r->Err_0, "Codex 接入已被其他程序修改，未覆盖；原始备份仍保留"@)
        } else if !original_parses {
            r is Err && config_error(r->Err_0, unparsable_message())
        } else if opt_view(before) == Some(lease.installed@) {
            r matches Ok(RestoreWrite::Original(t)) && t@ == (match lease.original {
                Some(o) => o@,
                None => Seq::<char>::empty(),
            })
        } else {
            r == Ok::<RestoreWrite, AppError>(RestoreWrite::Edited)
        })
}

/// The decision of a restore. `doc` and `installed` are the facts of the current
/// file and of the installed text (`None`: not TOML); `original_parses` tells
/// whether the original text parses.
pub fn plan_restore(
    lease: &Lease,
    config_path: &str,
    before: &Option<String>,
    expected: &Option<String>,
    doc: &Option<ConfigFacts>,
    installed: &Option<ConfigFacts>,
    original_parses: bool,
) -> (r: Result<RestoreWrite, AppError>)
    ensures
        restore_planned(r, *lease, config_path@, *before, *expected, *doc, *installed, original_parses),
{
    if !eq_str(lease.config_path.as_str(), config_path) {
        return Err(AppError::Conflict(owned("Codex 配置目录已变化，未向不同目录恢复")));
    }
    match expected {
        Some(e) => {
            let current = revision(before);
            if !eq_str(current.as_str(), e.as_str()) {
                return Err(AppError::Conflict(owned("Codex 配置已变化，请刷新后重试")));
            }
        },
        None => {},
    }
    if same_opt(before, &lease.original) {
        return Ok(RestoreWrite::Nothing);
    }
    let (d, i) = match (doc, installed) {
        (Some(d), Some(i)) => (d, i),
        _ => {
            return Err(AppError::Config(owned("Codex TOML 配置无法解析，未覆盖")));
        },
    };
    if !owns(d, i) {
        return Err(AppError::Conflict(owned("Codex 接入已被其他程序修改，未覆盖；原始备份仍保留")));
    }
    if !original_parses {
        return Err(AppError::Config(owned("Codex TOML 配置无法解析，未覆盖")));
    }
    let is_installed = match before {
        Some(b) => eq_str(b.as_str(), lease.installed.as_str()),
        None => false,
    };
    if is_installed {
        let text = match &lease.original {
            Some(o) => owned(o.as_str()),
            None => String::new(),
        };
        Ok(RestoreWrite::Original(text))
    } else {
        Ok(RestoreWrite::Edited)
    }
}


/// Leading byte-order marks dropped, as the configuration is parsed.
pub open spec fn strip_bom(s: Seq<char>) -> Seq<char>
    decreases s.len(),
{
    if s.len() > 0 && s[0] == '\u{feff}' {
        strip_bom(s.drop_first())
    } else {
        s
    }
}

/// The text a configuration is parsed from: an absent file reads as empty.
pub open spec fn config_text(text: Option<Seq<char>>) -> Seq<char> {
    strip_bom(
        match text {
            Some(t) => t,
            None => Seq::empty(),
        },
    )
}

/// The configuration text as it is parsed and edited.
pub fn config_source(text: &Option<String>) -> (r: String)
    ensures
        r@ == config_text(opt_view(*text)),
{
    let chars = match text {
        Some(t) => chars_of(t.as_str()),
        None => Vec::new(),
    };
    let mut i: usize = 0;
    assert(chars@.skip(0) =~= chars@);
    while i < chars.len() && chars[i] == '\u{feff}'
        invariant
            i <= chars.len(),
            config_text(opt_view(*text)) == strip_bom(chars@.skip(i as int)),
        decreases chars.len() - i,
    {
        assert(chars@.skip(i as int).drop_first() =~= chars@.skip(i + 1));
        i = i + 1;
    }
    let rest = substring_from(&chars, i);
    assert(rest@ =~= chars@.skip(i as int));
    string_of(&rest)
}

/// Whether the configuration parses as TOML.
pub fn config_parses(text: &Option<String>) -> (r: bool)
    ensures
        r == parses_toml(config_text(opt_view(*text))),
{
    let t = config_source(text);
    toml_parses(t.as_str())
}

/// `f` holds what the configuration text `t` says.
pub open spec fn facts_of(f: ConfigFacts, t: Seq<char>) -> bool {
    &&& opt_view(f.model_provider) == toml_str(t, "model_provider"@)
    &&& opt_view(f.base_url) == toml_nested_str(t, "model_providers"@, provider_name(f), "base_url"@)
    &&& opt_view(f.provider_entry) == toml_entry(t, "model_providers"@, PROVIDER@)
    &&& f.has_profile == toml_has(t, "profile"@)
}

/// `r` is what reading the configuration text `t` gives: nothing when it is not
/// TOML.
pub open spec fn read_as(r: Option<ConfigFacts>, t: Seq<char>) -> bool {
    match r {
        None => !parses_toml(t),
        Some(f) => parses_toml(t) && facts_of(f, t),
    }
}

/// What the logic reads from a configuration; `None` when it is not TOML.
pub fn read_facts(text: &Option<String>) -> (r: Option<ConfigFacts>)
    ensures
        read_as(r, config_text(opt_view(*text))),
{
    let t = config_source(text);
    if !toml_parses(t.as_str()) {
        return None;
    }
    let model_provider = toml_str_at(t.as_str(), "model_provider");
    let provider = match &model_provider {
        Some(p) => owned(p.as_str()),
        None => owned("openai"),
    };
    let base_url = toml_nested_str_at(t.as_str(), "model_providers", provider.as_str(), "base_url");
    let provider_entry = toml_entry_text(t.as_str(), "model_providers", PROVIDER);
    let has_profile = toml_has_key(t.as_str(), "profile");
    Some(ConfigFacts { model_provider, base_url, provider_entry, has_profile })
}

pub open spec fn spec_providers_not_table(t: Seq<char>) -> bool {
    toml_has(t, "model_providers"@) && !toml_table(t, "model_providers"@)
}

/// `model_providers` exists but is no table.
pub fn providers_not_table(text: &Option<String>) -> (r: bool)
    ensures
        r == spec_providers_not_table(config_text(opt_view(*text))),
{
    let t = config_source(text);
    toml_has_key(t.as_str(), "model_providers") && !toml_is_table(t.as_str(), "model_providers")
}

/// Display name of the installed provider (only shown, never compared).
pub open spec fn provider_display_name() -> Seq<char> {
    "Serylane 本地路由"@
}

/// The fields of the installed provider table, set one after another.
pub open spec fn provider_fields(t: Seq<char>, endpoint: Seq<char>, websockets: bool) -> Option<Seq<char>> {
    let mp = "model_providers"@;
    match toml_set_nested_str(t, mp, PROVIDER@, "name"@, provider_display_name()) {
        None => None,
        Some(a) => match toml_set_nested_str(a, mp, PROVIDER@, "base_url"@, endpoint) {
            None => None,
            Some(b) => match toml_set_nested_str(b, mp, PROVIDER@, "wire_api"@, "responses"@) {
                None => None,
                Some(c) => match toml_set_nested_bool(c, mp, PROVIDER@, "requires_openai_auth"@, true) {
                    None => None,
                    Some(d) => toml_set_nested_bool(d, mp, PROVIDER@, "supports_websockets"@, websockets),
                },
            },
        },
    }
}

/// The configuration `t` with the local route installed: `model_provider`
/// selects `routedeck`, `model_providers` is created when absent, and the
/// `routedeck` entry is a new table of the provider's fields.
pub open spec fn spec_installed(t: Seq<char>, endpoint: Seq<char>, websockets: bool) -> Option<Seq<char>> {
    let mp = "model_providers"@;
    match toml_set_str(t, "model_provider"@, PROVIDER@) {
        None => None,
        Some(t1) => {
            let t2 = if toml_has(t1, mp) {
                Some(t1)
            } else {
                toml_set_table(t1, mp)
            };
            match t2 {
                None => None,
                Some(t2) => match toml_set_nested_table(t2, mp, PROVIDER@) {
                    None => None,
                    Some(t3) => provider_fields(t3, endpoint, websockets),
                },
            }
        },
    }
}

fn set_provider_fields(t: &str, endpoint: &str, websockets: bool) -> (r: Option<String>)
    ensures
        opt_view(r) == provider_fields(t@, endpoint@, websockets),
{
    let a = match toml_with_nested_str(t, "model_providers", PROVIDER, "name", "Serylane 本地路由") {
        Some(a) => a,
        None => return None,
    };
    let b = match toml_with_nested_str(a.as_str(), "model_providers", PROVIDER, "base_url", endpoint) {
        Some(b) => b,
        None => return None,
    };
    let c = match toml_with_nested_str(b.as_str(), "model_providers", PROVIDER, "wire_api", "responses") {
        Some(c) => c,
        None => return None,
    };
    let d = match toml_with_nested_bool(c.as_str(), "model_providers", PROVIDER, "requires_openai_auth", true) {
        Some(d) => d,
        None => return None,
    };
    toml_with_nested_bool(d.as_str(), "model_providers", PROVIDER, "supports_websockets", websockets)
}

/// The text attaching writes for the configuration `before`, once
/// `check_attach` has passed; `endpoint` and `websockets` describe the local
/// route. A configuration that is not TOML is refused.
pub fn installed_config(before: &Option<String>, endpoint: &str, websockets: bool) -> (r: Result<String, AppError>)
    ensures
        match spec_installed(config_text(opt_view(*before)), endpoint@, websockets) {
            Some(t) => r matches Ok(x) && x@ == t,
            None => r is Err && config_error(r->Err_0, unparsable_message()),
        },
{
    let t = config_source(before);
    let t1 = match toml_with_str(t.as_str(), "model_provider", PROVIDER) {
        Some(t1) => t1,
        None => return Err(AppError::Config(owned("Codex TOML 配置无法解析，未覆盖"))),
    };
    let t2 = if toml_has_key(t1.as_str(), "model_providers") {
        t1
    } else {
        match toml_with_table(t1.as_str(), "model_providers") {
            Some(t2) => t2,
            None => return Err(AppError::Config(owned("Codex TOML 配置无法解析，未覆盖"))),
        }
    };
    let t3 = match toml_with_nested_table(t2.as_str(), "model_providers", PROVIDER) {
        Some(t3) => t3,
        None => return Err(AppError::Config(owned("Codex TOML 配置无法解析，未覆盖"))),
    };
    match set_provider_fields(t3.as_str(), endpoint, websockets) {
        Some(t) => Ok(t),
        None => Err(AppError::Config(owned("Codex TOML 配置无法解析，未覆盖"))),
    }
}

/// The configuration `t` with the two leased keys put back from the original
/// `o`: `model_provider` as the original had it (or removed), the `routedeck`
/// entry removed from a `model_providers` table, and that table removed when it
/// is left empty and the original had none. Other edits stay.
pub open spec fn spec_restored(t: Seq<char>, o: Seq<char>) -> Option<Seq<char>> {
    let mp = "model_providers"@;
    let s1 = if toml_has(o, "model_provider"@) {
        toml_copy_item(t, o, "model_provider"@)
    } else {
        toml_remove(t, "model_provider"@)
    };
    match s1 {
        None => None,
        Some(s1) => if toml_table(s1, mp) {
            match toml_remove_nested(s1, mp, PROVIDER@) {
                None => None,
                Some(s2) => if toml_table_size(s2, mp) == Some(0nat) && !toml_has(o, mp) {
                    toml_remove(s2, mp)
                } else {
                    Some(s2)
                },
            }
        } else {
            Some(s1)
        },
    }
}

/// The text restoring writes when the configuration `current` was edited since
/// it was attached (`RestoreWrite::Edited`); `original` is the text before
/// attaching. Either text not being TOML is refused.
pub fn restored_config(current: &Option<String>, original: &Option<String>) -> (r: Result<String, AppError>)
    ensures
        !parses_toml(config_text(opt_view(*original))) ==> r is Err && config_error(r->Err_0, unparsable_message()),
        parses_toml(config_text(opt_view(*original))) ==> match spec_restored(
            config_text(opt_view(*current)),
            config_text(opt_view(*original)),
        ) {
            Some(t) => r matches Ok(x) && x@ == t,
            None => r is Err && config_error(r->Err_0, unparsable_message()),
        },
{
    let t = config_source(current);
    let o = config_source(original);
    if !toml_parses(o.as_str()) {
        return Err(AppError::Config(owned("Codex TOML 配置无法解析，未覆盖")));
    }
    let s1 = if toml_has_key(o.as_str(), "model_provider") {
        toml_with_item_of(t.as_str(), o.as_str(), "model_provider")
    } else {
        toml_without_key(t.as_str(), "model_provider")
    };
    let s1 = match s1 {
        Some(s1) => s1,
        None => return Err(AppError::Config(owned("Codex TOML 配置无法解析，未覆盖"))),
    };
    if !toml_is_table(s1.as_str(), "model_providers") {
        return Ok(s1);
    }
    let s2 = match toml_without_nested(s1.as_str(), "model_providers", PROVIDER) {
        Some(s2) => s2,
        None => return Err(AppError::Config(owned("Codex TOML 配置无法解析，未覆盖"))),
    };
    let empty = match toml_table_len(s2.as_str(), "model_providers") {
        Some(n) => n == 0,
        None => false,
    };
    if empty && !toml_has_key(o.as_str(), "model_providers") {
        match toml_without_key(s2.as_str(), "model_providers") {
            Some(s3) => Ok(s3),
            None => Err(AppError::Config(owned("Codex TOML 配置无法解析，未覆盖"))),
        }
    } else {
        Ok(s2)
    }
}


/// Restoring a configuration that nobody touched since it was attached leaves
/// exactly the original text: either the file already is the original, or the
/// original text is written back. `installed` is what reading the installed text
/// gives; the route it installed selects the `routedeck` provider.
pub proof fn restore_undoes_an_untouched_attach(
    r: Result<RestoreWrite, AppError>,
    lease: Lease,
    installed: Option<ConfigFacts>,
)
    requires
        read_as(installed, config_text(Some(lease.installed@))),
        installed matches Some(f) && opt_view(f.model_provider) == Some(PROVIDER@),
        parses_toml(config_text(opt_view(lease.original))),
        restore_planned(
            r,
            lease,
            lease.config_path@,
            Some(lease.installed),
            None,
            installed,
            installed,
            parses_toml(config_text(opt_view(lease.original))),
        ),
    ensures
        match r {
            Ok(RestoreWrite::Nothing) => opt_view(lease.original) == Some(lease.installed@),
            Ok(RestoreWrite::Original(t)) => t@ == match lease.original {
                Some(o) => o@,
                None => Seq::<char>::empty(),
            },
            _ => false,
        },
{
}


/// The warning of a readable configuration, in order of precedence: a lease
/// that no longer holds is a conflict; otherwise a top-level `profile` key warns
/// that a Codex profile may override the route; otherwise a CC Switch provider
/// reminds that its router must keep running; otherwise there is none.
pub proof fn status_warnings_in_order(
    s: CodexStatus,
    text: Option<Seq<char>>,
    lease: Option<Lease>,
    config_path: Seq<char>,
    backup_path: Option<Seq<char>>,
    f: ConfigFacts,
    installed: Option<ConfigFacts>,
)
    requires
        status_matches(s, text, lease, config_path, backup_path, Some(f), installed),
    ensures
        lease is Some && !s.attached ==> opt_view(s.warning) == Some(
            "配置已被其他程序修改；Serylane 不会覆盖冲突字段。请查看备份后恢复。"@,
        ),
        (lease is None || s.attached) && f.has_profile ==> opt_view(s.warning) == Some(
            "检测到 Codex profile；其设置可能覆盖当前接入，请在新会话核对实际连接。"@,
        ),
        (lease is None || s.attached) && !f.has_profile && contains(provider_name(f), "cc-switch"@)
            ==> opt_view(s.warning) == Some("当前使用 CC Switch 接入；恢复后仍需其路由服务运行。"@),
        (lease is None || s.attached) && !f.has_profile && !contains(provider_name(f), "cc-switch"@)
            ==> s.warning is None,
{
}

} // verus!
