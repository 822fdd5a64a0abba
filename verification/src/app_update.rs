//! Release channels, official download locations and update-candidate ranking.
use vstd::prelude::*;
use vstd::string::*;
use crate::data::{DataNode, get_field, index};
use crate::error::AppError;
use crate::text::{chars_of, concat2, eq_str, lower, lower_chars, owned, string_of, substring_from};
use crate::version::{
    StableVersion, failure, is_update_error, parse_version, parse_version_chars, parsed_version,
    version_lt,
};

verus! {

/// Largest update package accepted from a release manifest (256 MiB).
pub const MAX_DOWNLOAD_BYTES: u64 = 268435456;

/// The published release location that releases up to 0.7.6 still name.
pub const LEGACY_GITHUB_RELEASES: &'static str = "https://github.com/CMMUU/routedeck/releases";

/// Where updates are looked up. `Auto` checks both official channels.
#[derive(Debug, Clone, Copy, PartialEq, Eq, Structural, Hash)]
pub enum UpdateSource {
    Auto,
    Github,
    Gitee,
}

impl Default for UpdateSource {
    fn default() -> (r: Self)
        ensures
            r == UpdateSource::Auto,
    {
        UpdateSource::Auto
    }
}

pub open spec fn spec_label(s: UpdateSource) -> Seq<char> {
    match s {
        UpdateSource::Auto => "自动"@,
        UpdateSource::Github => "GitHub"@,
        UpdateSource::Gitee => "Gitee"@,
    }
}

/// Release page base of a concrete channel; `None` for `Auto`.
pub open spec fn spec_release_base(s: UpdateSource) -> Option<Seq<char>> {
    match s {
        UpdateSource::Github => Some("https://github.com/CMMUU/serylane/releases"@),
        UpdateSource::Gitee => Some("https://gitee.com/cmmuu/routedeck/releases"@),
        UpdateSource::Auto => None,
    }
}

pub open spec fn unresolved_channel_message() -> Seq<char> {
    "请指定实际发布渠道"@
}

impl UpdateSource {
    pub fn label(self) -> (r: &'static str)
        ensures
            r@ == spec_label(self),
    {
        match self {
            UpdateSource::Auto => "自动",
            UpdateSource::Github => "GitHub",
            UpdateSource::Gitee => "Gitee",
        }
    }

    pub fn release_base(self) -> (r: Result<&'static str, AppError>)
        ensures
            match spec_release_base(self) {
                Some(b) => r matches Ok(s) && s@ == b,
                None => r matches Err(e) && is_update_error(e, unresolved_channel_message()),
            },
    {
        match self {
            UpdateSource::Github => Ok("https://github.com/CMMUU/serylane/releases"),
            UpdateSource::Gitee => Ok("https://gitee.com/cmmuu/routedeck/releases"),
            UpdateSource::Auto => Err(failure(owned("请指定实际发布渠道"))),
        }
    }
}

pub open spec fn tag_prefix_message() -> Seq<char> {
    "发布标签必须以 v 开头"@
}

/// The official release page for a tag `v<strict version>` on a concrete channel,
/// or the message of the update error that refuses it.
pub open spec fn spec_release_url(source: UpdateSource, tag: Seq<char>) -> Result<Seq<char>, Seq<char>> {
    if tag.len() == 0 || tag[0] != 'v' {
        Err(tag_prefix_message())
    } else if parsed_version(tag.drop_first()) is Err {
        Err(parsed_version(tag.drop_first())->Err_0)
    } else if spec_release_base(source) is None {
        Err(unresolved_channel_message())
    } else {
        Ok(spec_release_base(source).unwrap() + "/tag/"@ + tag)
    }
}

pub open spec fn text_result_matches(r: Result<String, AppError>, s: Result<Seq<char>, Seq<char>>) -> bool {
    match s {
        Ok(t) => r matches Ok(x) && x@ == t,
        Err(m) => r matches Err(e) && is_update_error(e, m),
    }
}

/// The official release page of `tag` on `source`.
pub fn official_release_url(source: UpdateSource, tag: &str) -> (r: Result<String, AppError>)
    ensures
        text_result_matches(r, spec_release_url(source, tag@)),
{
    let cs = chars_of(tag);
    if cs.len() == 0 || cs[0] != 'v' {
        return Err(failure(owned("发布标签必须以 v 开头")));
    }
    let rest = substring_from(&cs, 1);
    assert(rest@ == tag@.drop_first());
    match parse_version_chars(&rest) {
        Ok(_) => {},
        Err(e) => return Err(e),
    }
    let base = match source.release_base() {
        Ok(b) => b,
        Err(e) => return Err(e),
    };
    let mut url = concat2(base, "/tag/");
    url.append(tag);
    Ok(url)
}

/// File-name suffix of the update package for a manifest platform key.
pub open spec fn artifact_suffix(target: Seq<char>) -> Option<Seq<char>> {
    if target == "windows-x86_64"@ || target == "windows-x86_64-nsis"@ {
        Some("x64-setup.exe"@)
    } else if target == "windows-aarch64"@ || target == "windows-aarch64-nsis"@ {
        Some("arm64-setup.exe"@)
    } else if target == "windows-x86_64-msi"@ {
        Some("x64_en-US.msi"@)
    } else if target == "windows-aarch64-msi"@ {
        Some("arm64_en-US.msi"@)
    } else if target == "darwin-x86_64"@ {
        Some("x64.app.tar.gz"@)
    } else if target == "darwin-aarch64"@ {
        Some("aarch64.app.tar.gz"@)
    } else if target == "linux-x86_64"@ {
        Some("amd64.AppImage"@)
    } else if target == "linux-aarch64"@ {
        Some("aarch64.AppImage"@)
    } else {
        None
    }
}

pub open spec fn unsupported_target_message() -> Seq<char> {
    "此系统架构暂不支持内置更新"@
}

/// Name of the published package file for a platform key and strict version.
pub open spec fn spec_artifact_name(target: Seq<char>, version: Seq<char>) -> Result<Seq<char>, Seq<char>> {
    if parsed_version(version) is Err {
        Err(parsed_version(version)->Err_0)
    } else if artifact_suffix(target) is None {
        Err(unsupported_target_message())
    } else {
        Ok("RouteDeck_"@ + version + "_"@ + artifact_suffix(target).unwrap())
    }
}

fn suffix_for(target: &str) -> (r: Option<&'static str>)
    ensures
        match artifact_suffix(target@) {
            Some(s) => r matches Some(x) && x@ == s,
            None => r is None,
        },
{
    if eq_str(target, "windows-x86_64") || eq_str(target, "windows-x86_64-nsis") {
        Some("x64-setup.exe")
    } else if eq_str(target, "windows-aarch64") || eq_str(target, "windows-aarch64-nsis") {
        Some("arm64-setup.exe")
    } else if eq_str(target, "windows-x86_64-msi") {
        Some("x64_en-US.msi")
    } else if eq_str(target, "windows-aarch64-msi") {
        Some("arm64_en-US.msi")
    } else if eq_str(target, "darwin-x86_64") {
        Some("x64.app.tar.gz")
    } else if eq_str(target, "darwin-aarch64") {
        Some("aarch64.app.tar.gz")
    } else if eq_str(target, "linux-x86_64") {
        Some("amd64.AppImage")
    } else if eq_str(target, "linux-aarch64") {
        Some("aarch64.AppImage")
    } else {
        None
    }
}

/// Name of the published package file for a platform key and version.
pub fn artifact_name(target: &str, version: &str) -> (r: Result<String, AppError>)
    ensures
        text_result_matches(r, spec_artifact_name(target@, version@)),
{
    match parse_version(version) {
        Ok(_) => {},
        Err(e) => return Err(e),
    }
    let suffix = match suffix_for(target) {
        Some(s) => s,
        None => return Err(failure(owned("此系统架构暂不支持内置更新"))),
    };
    let mut name = concat2("RouteDeck_", version);
    name.append("_");
    name.append(suffix);
    Ok(name)
}

pub open spec fn is_hex_digit(c: char) -> bool {
    ('0' <= c && c <= '9') || ('a' <= c && c <= 'f') || ('A' <= c && c <= 'F')
}

/// A SHA-256 digest in hexadecimal: 64 hexadecimal digits.
pub open spec fn valid_digest(s: Seq<char>) -> bool {
    s.len() == 64 && forall|i: int| 0 <= i < s.len() ==> is_hex_digit(#[trigger] s[i])
}

pub open spec fn url_mismatch_message() -> Seq<char> {
    "更新包地址与官方渠道、版本或架构不一致"@
}

pub open spec fn digest_message() -> Seq<char> {
    "更新清单缺少有效 SHA-256 摘要"@
}

pub open spec fn size_message() -> Seq<char> {
    "更新包大小无效或超过 256 MiB 限制"@
}

/// The only download locations accepted for a package: the channel's own release
/// download, or for GitHub also the legacy repository's.
pub open spec fn expected_download(base: Seq<char>, version: Seq<char>, name: Seq<char>) -> Seq<char> {
    base + "/download/v"@ + version + "/"@ + name
}

/// The outcome of checking one manifest entry: the lower-case digest and the size
/// of the package, or the message of the update error.
pub open spec fn spec_validate_asset(
    source: UpdateSource,
    target: Seq<char>,
    version: Seq<char>,
    url: Seq<char>,
    raw: DataNode,
) -> Result<(Seq<char>, u64), Seq<char>> {
    if spec_release_base(source) is None {
        Err(unresolved_channel_message())
    } else if spec_artifact_name(target, version) is Err {
        Err(spec_artifact_name(target, version)->Err_0)
    } else {
        let name = spec_artifact_name(target, version)->Ok_0;
        let expected = expected_download(spec_release_base(source).unwrap(), version, name);
        let legacy = source == UpdateSource::Github && url == expected_download(
            LEGACY_GITHUB_RELEASES@,
            version,
            name,
        );
        let platform = index(index(raw, "platforms"@), target);
        let hash = index(platform, "sha256"@);
        let size = index(platform, "size"@);
        if url != expected && !legacy {
            Err(url_mismatch_message())
        } else if !(hash matches DataNode::Text(h) && valid_digest(h@)) {
            Err(digest_message())
        } else if !(size matches DataNode::UInt(n) && 0 < n <= MAX_DOWNLOAD_BYTES) {
            Err(size_message())
        } else {
            Ok((lower(hash->Text_0@), size->UInt_0))
        }
    }
}

fn valid_digest_chars(s: &Vec<char>) -> (r: bool)
    ensures
        r == valid_digest(s@),
{
    if s.len() != 64 {
        return false;
    }
    let mut i: usize = 0;
    while i < s.len()
        invariant
            i <= s.len(),
            forall|k: int| 0 <= k < i ==> is_hex_digit(#[trigger] s@[k]),
        decreases s.len() - i,
    {
        let c = s[i];
        if !(('0' <= c && c <= '9') || ('a' <= c && c <= 'f') || ('A' <= c && c <= 'F')) {
            return false;
        }
        i = i + 1;
    }
    true
}

fn null_node() -> (r: DataNode)
    ensures
        r == DataNode::Other,
{
    DataNode::Other
}

/// Checks a manifest entry against the channel, version and platform it must belong to.
pub fn validate_asset(
    source: UpdateSource,
    target: &str,
    version: &str,
    url: &str,
    raw: &DataNode,
) -> (r: Result<(String, u64), AppError>)
    ensures
        match spec_validate_asset(source, target@, version@, url@, *raw) {
            Ok((h, n)) => r matches Ok((x, m)) && x@ == h && m == n,
            Err(msg) => r matches Err(e) && is_update_error(e, msg),
        },
{
    let base = match source.release_base() {
        Ok(b) => b,
        Err(e) => return Err(e),
    };
    let name = match artifact_name(target, version) {
        Ok(n) => n,
        Err(e) => return Err(e),
    };
    let mut expected = concat2(base, "/download/v");
    expected.append(version);
    expected.append("/");
    expected.append(name.as_str());
    let mut legacy_url = concat2(LEGACY_GITHUB_RELEASES, "/download/v");
    legacy_url.append(version);
    legacy_url.append("/");
    legacy_url.append(name.as_str());
    let legacy = source == UpdateSource::Github && eq_str(url, legacy_url.as_str());
    if !eq_str(url, expected.as_str()) && !legacy {
        return Err(failure(owned("更新包地址与官方渠道、版本或架构不一致")));
    }
    let other = null_node();
    let platforms = match get_field(raw, "platforms") {
        Some(p) => p,
        None => &other,
    };
    let platform = match get_field(platforms, target) {
        Some(p) => p,
        None => &other,
    };
    let hash = match get_field(platform, "sha256") {
        Some(DataNode::Text(h)) => {
            let cs = chars_of(h.as_str());
            if !valid_digest_chars(&cs) {
                return Err(failure(owned("更新清单缺少有效 SHA-256 摘要")));
            }
            string_of(&lower_chars(&cs))
        },
        _ => return Err(failure(owned("更新清单缺少有效 SHA-256 摘要"))),
    };
    let size = match get_field(platform, "size") {
        Some(DataNode::UInt(n)) => {
            if *n == 0 || *n > MAX_DOWNLOAD_BYTES {
                return Err(failure(owned("更新包大小无效或超过 256 MiB 限制")));
            }
            *n
        },
        _ => return Err(failure(owned("更新包大小无效或超过 256 MiB 限制"))),
    };
    Ok((hash, size))
}

/// Ordering key of an update candidate: newest version first, then the domestic
/// mirror before GitHub (before an unresolved channel). Smaller keys sort first.
pub open spec fn spec_priority(version: StableVersion, source: UpdateSource) -> (u64, u64, u64, u8) {
    (
        (u64::MAX - version.0) as u64,
        (u64::MAX - version.1) as u64,
        (u64::MAX - version.2) as u64,
        match source {
            UpdateSource::Gitee => 0u8,
            UpdateSource::Github => 1u8,
            UpdateSource::Auto => 2u8,
        },
    )
}

/// Lexicographic `<` of two ranking keys, as std orders tuples.
pub open spec fn key_lt(a: (u64, u64, u64, u8), b: (u64, u64, u64, u8)) -> bool {
    a.0 < b.0 || (a.0 == b.0 && (a.1 < b.1 || (a.1 == b.1 && (a.2 < b.2 || (a.2 == b.2
        && a.3 < b.3)))))
}

pub open spec fn source_rank(s: UpdateSource) -> int {
    match s {
        UpdateSource::Gitee => 0,
        UpdateSource::Github => 1,
        UpdateSource::Auto => 2,
    }
}

pub fn candidate_priority(version: StableVersion, source: UpdateSource) -> (r: (u64, u64, u64, u8))
    ensures
        r == spec_priority(version, source),
{
    let rank: u8 = match source {
        UpdateSource::Gitee => 0,
        UpdateSource::Github => 1,
        UpdateSource::Auto => 2,
    };
    (u64::MAX - version.0, u64::MAX - version.1, u64::MAX - version.2, rank)
}

/// Ranking law: a candidate sorts before another exactly when it is a newer
/// version, or the same version from a preferred channel. A lagging mirror can
/// therefore never hide a newer official release.
pub proof fn candidate_priority_orders_newest_then_mirror(
    va: StableVersion,
    sa: UpdateSource,
    vb: StableVersion,
    sb: UpdateSource,
)
    ensures
        key_lt(spec_priority(va, sa), spec_priority(vb, sb)) <==> (version_lt(vb, va) || (va
            == vb && source_rank(sa) < source_rank(sb))),
{
}

} // verus!
