//! Turning the answers of the release channels into the update offer the user sees.
use vstd::prelude::*;
use vstd::string::*;
use crate::app_update::{
    UpdateSource, candidate_priority, key_lt, official_release_url, source_rank, spec_priority,
    spec_release_base, spec_release_url, spec_validate_asset, validate_asset,
};
use crate::data::{DataNode, get_field, index};
use crate::text::{trim_chars, trimmed};
use crate::weblink::{parse_url, url_parts_of};
use vstd::utf8::encode_utf8;
use crate::error::{AppError, spec_message};
use crate::sorted::{join, joined, views};
use crate::text::{chars_of, concat2, eq_str, owned, string_of};
use crate::version::{
    StableVersion, failure, is_update_error, parse_version, parsed_version, version_equal,
    version_less, version_lt,
};

verus! {

/// What one channel answered during a check.
#[derive(Debug, Clone)]
pub struct UpdateChannelStatus {
    pub source: UpdateSource,
    pub version: Option<String>,
    pub error: Option<String>,
}

/// The offer computed from a check.
#[derive(Debug, Clone)]
pub struct AppUpdateInfo {
    pub current_version: String,
    pub latest_version: String,
    pub available: bool,
    pub ahead: bool,
    pub notes: String,
    pub published_at: Option<String>,
    pub release_url: String,
    pub source: UpdateSource,
    pub channels: Vec<UpdateChannelStatus>,
}

/// What the interface shows about the updater.
#[derive(Debug, Clone)]
pub struct AppUpdateStatus {
    pub phase: String,
    pub info: Option<AppUpdateInfo>,
    pub downloaded_bytes: u64,
    pub total_bytes: u64,
    pub error: Option<String>,
}

pub open spec fn is_idle_status(s: AppUpdateStatus) -> bool {
    &&& s.phase@ == "idle"@
    &&& s.info is None
    &&& s.downloaded_bytes == 0
    &&& s.total_bytes == 0
    &&& s.error is None
}

impl Default for AppUpdateStatus {
    fn default() -> (r: Self)
        ensures
            is_idle_status(r),
    {
        AppUpdateStatus {
            phase: owned("idle"),
            info: None,
            downloaded_bytes: 0,
            total_bytes: 0,
            error: None,
        }
    }
}

/// A release that passed the manifest checks of its channel.
#[derive(Debug, Clone)]
pub struct ReleaseCandidate {
    pub source: UpdateSource,
    pub version: StableVersion,
    /// The version as the manifest wrote it.
    pub version_text: String,
    pub sha256: String,
    pub size: u64,
    pub signature: String,
    /// Release notes (empty when the manifest has none).
    pub notes: String,
    pub published_at: Option<String>,
}

/// The answer of one channel: its candidate, or why it has none.
pub type ChannelResult = (UpdateSource, Result<ReleaseCandidate, AppError>);

pub open spec fn key_of(c: ReleaseCandidate) -> (u64, u64, u64, u8) {
    spec_priority(c.version, c.source)
}

/// Two candidates carry the same package: version, digest, size and signature.
pub open spec fn same_build(a: ReleaseCandidate, b: ReleaseCandidate) -> bool {
    &&& a.version == b.version
    &&& a.sha256@ == b.sha256@
    &&& a.size == b.size
    &&& a.signature@ == b.signature@
}

pub open spec fn is_ok_at(results: Seq<ChannelResult>, i: int) -> bool {
    0 <= i < results.len() && results[i].1 is Ok
}

pub open spec fn cand(results: Seq<ChannelResult>, i: int) -> ReleaseCandidate {
    results[i].1->Ok_0
}

pub open spec fn any_ok(results: Seq<ChannelResult>) -> bool {
    exists|i: int| is_ok_at(results, i)
}

/// `b` is the candidate that sorts first: no earlier candidate ranks as high,
/// no later one ranks higher.
pub open spec fn is_latest(results: Seq<ChannelResult>, b: int) -> bool {
    &&& is_ok_at(results, b)
    &&& forall|j: int|
        #![trigger is_ok_at(results, j)]
        is_ok_at(results, j) ==> (j < b ==> key_lt(key_of(cand(results, b)), key_of(cand(results, j))))
            && (j > b ==> !key_lt(key_of(cand(results, j)), key_of(cand(results, b))))
}

/// Messages of the channels that failed, in order.
pub open spec fn error_texts(results: Seq<ChannelResult>) -> Seq<Seq<char>>
    decreases results.len(),
{
    if results.len() == 0 {
        Seq::empty()
    } else {
        error_texts(results.drop_last()) + match results.last().1 {
            Err(e) => seq![spec_message(e)],
            Ok(_) => Seq::empty(),
        }
    }
}

pub open spec fn mixed_build_message() -> Seq<char> {
    "此渠道同版本的安装包或签名不一致，已排除跨渠道下载回退"@
}

/// Some candidate of `source` has the latest version but another package.
pub open spec fn conflicting_source(results: Seq<ChannelResult>, b: int, source: UpdateSource) -> bool {
    exists|i: int|
        #![trigger is_ok_at(results, i)]
        is_ok_at(results, i) && cand(results, i).source == source && cand(results, i).version
            == cand(results, b).version && !same_build(cand(results, b), cand(results, i))
}

pub open spec fn first_of_source(results: Seq<ChannelResult>, k: int) -> bool {
    forall|j: int| 0 <= j < k ==> #[trigger] results[j].0 != results[k].0
}

/// The status line of the `k`-th channel once the latest candidate `b` is known.
pub open spec fn channel_matches(c: UpdateChannelStatus, results: Seq<ChannelResult>, b: int, k: int) -> bool {
    &&& c.source == results[k].0
    &&& match results[k].1 {
        Ok(x) => c.version matches Some(v) && v@ == "v"@ + x.version_text@,
        Err(_) => c.version is None,
    }
    &&& if conflicting_source(results, b, results[k].0) && first_of_source(results, k) {
        c.error matches Some(m) && m@ == mixed_build_message()
    } else {
        match results[k].1 {
            Ok(_) => c.error is None,
            Err(e) => c.error matches Some(m) && m@ == spec_message(e),
        }
    }
}

/// Indices of the candidates of one channel rank that carry the same package as `b`.
pub open spec fn picks(results: Seq<ChannelResult>, b: int, rank: int, n: int) -> Seq<usize>
    decreases n,
{
    if n <= 0 {
        Seq::empty()
    } else {
        picks(results, b, rank, n - 1) + if is_ok_at(results, n - 1) && source_rank(
            cand(results, n - 1).source,
        ) == rank && same_build(cand(results, b), cand(results, n - 1)) {
            seq![(n - 1) as usize]
        } else {
            Seq::empty()
        }
    }
}

/// The download order: the same package on every channel that has it, the
/// preferred channel first. A different build is never a fallback.
pub open spec fn retained(results: Seq<ChannelResult>, b: int) -> Seq<usize> {
    picks(results, b, 0, results.len() as int) + picks(results, b, 1, results.len() as int) + picks(
        results,
        b,
        2,
        results.len() as int,
    )
}

proof fn lemma_picks_same_build(results: Seq<ChannelResult>, b: int, rank: int, n: int)
    requires
        n <= results.len() <= usize::MAX,
    ensures
        forall|j: int| 0 <= j < picks(results, b, rank, n).len() ==> {
            let i = #[trigger] picks(results, b, rank, n)[j] as int;
            is_ok_at(results, i) && source_rank(cand(results, i).source) == rank && same_build(
                cand(results, b),
                cand(results, i),
            )
        },
    decreases n,
{
    if n > 0 {
        lemma_picks_same_build(results, b, rank, n - 1);
        let p = picks(results, b, rank, n - 1);
        assert forall|j: int| 0 <= j < picks(results, b, rank, n).len() implies {
            let i = #[trigger] picks(results, b, rank, n)[j] as int;
            is_ok_at(results, i) && source_rank(cand(results, i).source) == rank && same_build(
                cand(results, b),
                cand(results, i),
            )
        } by {
            if j < p.len() {
                assert(picks(results, b, rank, n)[j] == p[j]);
            } else {
                assert(picks(results, b, rank, n)[j] == (n - 1) as usize);
            }
        }
    }
}

/// The download order never holds another build: every candidate in it carries
/// the latest candidate's version, digest, size and signature, and it lists the
/// preferred channels first.
pub proof fn download_order_keeps_only_the_latest_build(results: Seq<ChannelResult>, b: int)
    requires
        results.len() <= usize::MAX,
    ensures
        forall|j: int| 0 <= j < retained(results, b).len() ==> {
            let i = #[trigger] retained(results, b)[j] as int;
            is_ok_at(results, i) && same_build(cand(results, b), cand(results, i))
        },
{
    let n = results.len() as int;
    lemma_picks_same_build(results, b, 0, n);
    lemma_picks_same_build(results, b, 1, n);
    lemma_picks_same_build(results, b, 2, n);
    let p0 = picks(results, b, 0, n);
    let p1 = picks(results, b, 1, n);
    let p2 = picks(results, b, 2, n);
    assert forall|j: int| 0 <= j < retained(results, b).len() implies {
        let i = #[trigger] retained(results, b)[j] as int;
        is_ok_at(results, i) && same_build(cand(results, b), cand(results, i))
    } by {
        if j < p0.len() {
            assert(retained(results, b)[j] == p0[j]);
        } else if j < p0.len() + p1.len() {
            assert(retained(results, b)[j] == p1[j - p0.len()]);
        } else {
            assert(retained(results, b)[j] == p2[j - p0.len() - p1.len()]);
        }
    }
}

pub open spec fn notes_limit() -> nat {
    20000
}

pub open spec fn shortened(s: Seq<char>, n: nat) -> Seq<char> {
    if s.len() <= n {
        s
    } else {
        s.take(n as int)
    }
}

/// The offer for the latest candidate `b`, seen from `current`.
pub open spec fn info_matches(
    info: AppUpdateInfo,
    current_text: Seq<char>,
    current: StableVersion,
    results: Seq<ChannelResult>,
    b: int,
    url: Seq<char>,
) -> bool {
    let c = cand(results, b);
    &&& info.current_version@ == current_text
    &&& info.latest_version@ == "v"@ + c.version_text@
    &&& info.available == version_lt(current, c.version)
    &&& info.ahead == version_lt(c.version, current)
    &&& info.notes@ == shortened(c.notes@, notes_limit())
    &&& match c.published_at {
        Some(p) => info.published_at matches Some(q) && q@ == p@,
        None => info.published_at is None,
    }
    &&& info.release_url@ == url
    &&& info.source == c.source
    &&& info.channels@.len() == results.len()
    &&& forall|k: int| 0 <= k < results.len() ==> channel_matches(#[trigger] info.channels@[k], results, b, k)
}

/// A candidate's version is what its version text parses to.
pub open spec fn consistent(c: ReleaseCandidate) -> bool {
    parsed_version(c.version_text@) == Ok::<StableVersion, Seq<char>>(c.version)
}

/// Every channel that answered offers a consistent candidate, as
/// `check_manifest` builds them.
pub open spec fn all_consistent(results: Seq<ChannelResult>) -> bool {
    forall|i: int| #[trigger] is_ok_at(results, i) ==> consistent(cand(results, i))
}

/// The offer's version text is `v` and the newest version that any channel
/// answered; the offer is available exactly when that version is newer than the
/// running one, and ahead exactly when it is older.
pub open spec fn newest_offer(info: AppUpdateInfo, current: StableVersion, results: Seq<ChannelResult>) -> bool {
    &&& info.latest_version@.len() > 0
    &&& info.latest_version@[0] == 'v'
    &&& parsed_version(info.latest_version@.drop_first()) matches Ok(l) && {
        &&& forall|j: int| #[trigger] is_ok_at(results, j) ==> !version_lt(l, cand(results, j).version)
        &&& info.available == version_lt(current, l)
        &&& info.ahead == version_lt(l, current)
    }
}

/// The offer names, after its `v`, the newest version that any channel answered;
/// it is marked available exactly when that version is newer than the running
/// one, and ahead exactly when it is older.
pub proof fn offer_is_the_newest_answer(
    info: AppUpdateInfo,
    current_text: Seq<char>,
    current: StableVersion,
    results: Seq<ChannelResult>,
    b: int,
    url: Seq<char>,
)
    requires
        all_consistent(results),
        is_latest(results, b),
        info_matches(info, current_text, current, results, b, url),
    ensures
        newest_offer(info, current, results),
{
    reveal_strlit("v");
    let c = cand(results, b);
    assert(info.latest_version@.drop_first() =~= c.version_text@);
    assert(is_ok_at(results, b));
    assert forall|j: int| #[trigger] is_ok_at(results, j) implies !version_lt(c.version, cand(results, j).version) by {
        if j != b {
            let d = cand(results, j);
            if version_lt(c.version, d.version) {
                assert(key_lt(key_of(d), key_of(c)));
                assert(!key_lt(key_of(c), key_of(d)));
            }
        }
    }
}

/// Two indices that both sort first are the same.
pub proof fn lemma_latest_unique(results: Seq<ChannelResult>, a: int, b: int)
    requires
        is_latest(results, a),
        is_latest(results, b),
    ensures
        a == b,
{
    assert(is_ok_at(results, a));
    assert(is_ok_at(results, b));
}

fn key_less(a: (u64, u64, u64, u8), b: (u64, u64, u64, u8)) -> (r: bool)
    ensures
        r == key_lt(a, b),
{
    a.0 < b.0 || (a.0 == b.0 && (a.1 < b.1 || (a.1 == b.1 && (a.2 < b.2 || (a.2 == b.2 && a.3
        < b.3)))))
}

fn builds_match(a: &ReleaseCandidate, b: &ReleaseCandidate) -> (r: bool)
    ensures
        r == same_build(*a, *b),
{
    version_equal(a.version, b.version) && eq_str(a.sha256.as_str(), b.sha256.as_str()) && a.size
        == b.size && eq_str(a.signature.as_str(), b.signature.as_str())
}

/// The index of the candidate that sorts first, if any channel produced one.
fn find_latest(results: &Vec<ChannelResult>) -> (r: Option<usize>)
    ensures
        r is None <==> !any_ok(results@),
        r matches Some(b) ==> is_latest(results@, b as int),
{
    let mut best: Option<usize> = None;
    let mut i: usize = 0;
    while i < results.len()
        invariant
            i <= results.len(),
            best is None <==> (forall|j: int| 0 <= j < i ==> !#[trigger] is_ok_at(results@, j)),
            best matches Some(b) ==> b < i && is_ok_at(results@, b as int) && forall|j: int|
                #![trigger is_ok_at(results@, j)]
                0 <= j < i && is_ok_at(results@, j) ==> (j < b ==> key_lt(
                    key_of(cand(results@, b as int)),
                    key_of(cand(results@, j)),
                )) && (j > b ==> !key_lt(key_of(cand(results@, j)), key_of(cand(results@, b as int)))),
        decreases results.len() - i,
    {
        match &results[i].1 {
            Ok(c) => {
                match best {
                    None => {
                        best = Some(i);
                    },
                    Some(b) => {
                        let cb = match &results[b].1 {
                            Ok(x) => x,
                            Err(_) => {
                                assert(false);
                                return None;
                            },
                        };
                        if key_less(
                            candidate_priority(c.version, c.source),
                            candidate_priority(cb.version, cb.source),
                        ) {
                            best = Some(i);
                        }
                    },
                }
            },
            Err(_) => {
                assert(!is_ok_at(results@, i as int));
            },
        }
        proof {
            if best is Some {
                assert(is_ok_at(results@, best->0 as int));
            }
        }
        i = i + 1;
    }
    proof {
        if best is None && any_ok(results@) {
            let j = choose|j: int| is_ok_at(results@, j);
            assert(!is_ok_at(results@, j));
        }
    }
    best
}

/// The messages of the failed channels, in order.
fn error_list(results: &Vec<ChannelResult>) -> (r: Vec<String>)
    ensures
        views(r@) == error_texts(results@),
{
    let mut out: Vec<String> = Vec::new();
    let mut i: usize = 0;
    while i < results.len()
        invariant
            i <= results.len(),
            views(out@) == error_texts(results@.take(i as int)),
        decreases results.len() - i,
    {
        proof {
            assert(results@.take(i + 1).drop_last() =~= results@.take(i as int));
        }
        match &results[i].1 {
            Err(e) => {
                out.push(e.message());
            },
            Ok(_) => {},
        }
        i = i + 1;
        assert(views(out@) =~= error_texts(results@.take(i as int)));
    }
    assert(results@.take(results.len() as int) =~= results@);
    out
}

fn has_conflict(results: &Vec<ChannelResult>, b: usize, source: UpdateSource) -> (r: bool)
    requires
        is_ok_at(results@, b as int),
    ensures
        r == conflicting_source(results@, b as int, source),
{
    let latest = match &results[b].1 {
        Ok(x) => x,
        Err(_) => {
            return false;
        },
    };
    let mut i: usize = 0;
    while i < results.len()
        invariant
            i <= results.len(),
            is_ok_at(results@, b as int),
            *latest == cand(results@, b as int),
            forall|j: int|
                #![trigger is_ok_at(results@, j)]
                0 <= j < i ==> !(is_ok_at(results@, j) && cand(results@, j).source == source
                    && cand(results@, j).version == cand(results@, b as int).version
                    && !same_build(cand(results@, b as int), cand(results@, j))),
        decreases results.len() - i,
    {
        match &results[i].1 {
            Ok(c) => {
                if c.source == source && version_equal(c.version, latest.version) && !builds_match(
                    latest,
                    c,
                ) {
                    assert(is_ok_at(results@, i as int));
                    return true;
                }
            },
            Err(_) => {},
        }
        i = i + 1;
    }
    false
}

fn first_with_source(results: &Vec<ChannelResult>, k: usize) -> (r: bool)
    requires
        k < results.len(),
    ensures
        r == first_of_source(results@, k as int),
{
    let mut j: usize = 0;
    while j < k
        invariant
            j <= k < results.len(),
            forall|m: int| 0 <= m < j ==> #[trigger] results@[m].0 != results@[k as int].0,
        decreases k - j,
    {
        if results[j].0 == results[k].0 {
            return false;
        }
        j = j + 1;
    }
    true
}

fn channel_status(results: &Vec<ChannelResult>, b: usize, k: usize) -> (r: UpdateChannelStatus)
    requires
        is_ok_at(results@, b as int),
        k < results.len(),
    ensures
        channel_matches(r, results@, b as int, k as int),
{
    let source = results[k].0;
    let version = match &results[k].1 {
        Ok(x) => Some(concat2("v", x.version_text.as_str())),
        Err(_) => None,
    };
    let error = if has_conflict(results, b, source) && first_with_source(results, k) {
        Some(owned("此渠道同版本的安装包或签名不一致，已排除跨渠道下载回退"))
    } else {
        match &results[k].1 {
            Ok(_) => None,
            Err(e) => Some(e.message()),
        }
    };
    UpdateChannelStatus { source, version, error }
}

fn channel_statuses(results: &Vec<ChannelResult>, b: usize) -> (r: Vec<UpdateChannelStatus>)
    requires
        is_ok_at(results@, b as int),
    ensures
        r@.len() == results.len(),
        forall|k: int| 0 <= k < results.len() ==> channel_matches(#[trigger] r@[k], results@, b as int, k),
{
    let mut out: Vec<UpdateChannelStatus> = Vec::new();
    let mut k: usize = 0;
    while k < results.len()
        invariant
            k <= results.len(),
            is_ok_at(results@, b as int),
            out@.len() == k,
            forall|m: int| 0 <= m < k ==> channel_matches(#[trigger] out@[m], results@, b as int, m),
        decreases results.len() - k,
    {
        out.push(channel_status(results, b, k));
        k = k + 1;
    }
    out
}

fn rank_of(s: UpdateSource) -> (r: u8)
    ensures
        r == source_rank(s),
{
    match s {
        UpdateSource::Gitee => 0,
        UpdateSource::Github => 1,
        UpdateSource::Auto => 2,
    }
}

fn push_picks(out: &mut Vec<usize>, results: &Vec<ChannelResult>, b: usize, rank: u8)
    requires
        is_ok_at(results@, b as int),
    ensures
        final(out)@ == old(out)@ + picks(results@, b as int, rank as int, results.len() as int),
{
    let ghost start = out@;
    let latest = match &results[b].1 {
        Ok(x) => x,
        Err(_) => {
            return;
        },
    };
    let mut i: usize = 0;
    while i < results.len()
        invariant
            i <= results.len(),
            *latest == cand(results@, b as int),
            out@ == start + picks(results@, b as int, rank as int, i as int),
        decreases results.len() - i,
    {
        match &results[i].1 {
            Ok(c) => {
                if rank_of(c.source) == rank && builds_match(latest, c) {
                    out.push(i);
                }
            },
            Err(_) => {},
        }
        i = i + 1;
        assert(out@ =~= start + picks(results@, b as int, rank as int, i as int));
    }
}

fn take_chars(s: &str, n: usize) -> (r: String)
    ensures
        r@ == shortened(s@, n as nat),
{
    let cs = chars_of(s);
    if cs.len() <= n {
        return owned(s);
    }
    let mut out: Vec<char> = Vec::new();
    let mut i: usize = 0;
    while i < n
        invariant
            i <= n < cs.len(),
            out@ == cs@.take(i as int),
        decreases n - i,
    {
        out.push(cs[i]);
        i = i + 1;
        assert(out@ =~= cs@.take(i as int));
    }
    string_of(&out)
}

fn copy_text(s: &Option<String>) -> (r: Option<String>)
    ensures
        match *s {
            Some(p) => r matches Some(q) && q@ == p@,
            None => r is None,
        },
{
    match s {
        Some(p) => Some(owned(p.as_str())),
        None => None,
    }
}

/// Combines the answers of the checked channels into the offer and the download
/// order. The newest version wins; for the same version the domestic mirror comes
/// first; a channel that published a different package under the latest version is
/// marked and never used as a fallback. When every channel failed, the error lists
/// their messages.
pub fn summarize_check(current_text: &str, results: &Vec<ChannelResult>) -> (r: Result<
    (AppUpdateInfo, Vec<usize>),
    AppError,
>)
    ensures
        !any_ok(results@) ==> (r matches Err(e) && is_update_error(
            e,
            joined(error_texts(results@), "；"@),
        )),
        any_ok(results@) ==> match parsed_version(current_text@) {
            Err(m) => r matches Err(e) && is_update_error(e, m),
            Ok(current) => exists|b: int|
                #![trigger is_latest(results@, b)]
                is_latest(results@, b) && match spec_release_url(
                    cand(results@, b).source,
                    "v"@ + cand(results@, b).version_text@,
                ) {
                    Err(m) => r matches Err(e) && is_update_error(e, m),
                    Ok(url) => r matches Ok((info, kept)) && info_matches(
                        info,
                        current_text@,
                        current,
                        results@,
                        b,
                        url,
                    ) && kept@ == retained(results@, b),
                },
        },
        all_consistent(results@) && r is Ok ==> (parsed_version(current_text@) matches Ok(current)
            && newest_offer(r->Ok_0.0, current, results@)),
{
    let b = match find_latest(results) {
        Some(b) => b,
        None => {
            let errors = error_list(results);
            return Err(failure(join(&errors, "；")));
        },
    };
    let current = match parse_version(current_text) {
        Ok(v) => v,
        Err(e) => {
            return Err(e);
        },
    };
    let latest = match &results[b].1 {
        Ok(x) => x,
        Err(_) => {
            return Err(failure(owned("发布服务没有返回更新清单")));
        },
    };
    let tag = concat2("v", latest.version_text.as_str());
    let url = match official_release_url(latest.source, tag.as_str()) {
        Ok(u) => u,
        Err(e) => {
            assert(is_latest(results@, b as int));
            return Err(e);
        },
    };
    let channels = channel_statuses(results, b);
    let mut kept: Vec<usize> = Vec::new();
    push_picks(&mut kept, results, b, 0);
    push_picks(&mut kept, results, b, 1);
    push_picks(&mut kept, results, b, 2);
    let info = AppUpdateInfo {
        current_version: owned(current_text),
        latest_version: tag,
        available: version_less(current, latest.version),
        ahead: version_less(latest.version, current),
        notes: take_chars(latest.notes.as_str(), 20000),
        published_at: copy_text(&latest.published_at),
        release_url: url,
        source: latest.source,
        channels,
    };
    assert(is_latest(results@, b as int));
    proof {
        if all_consistent(results@) {
            assert(info_matches(info, current_text@, current, results@, b as int, url@));
            offer_is_the_newest_answer(info, current_text@, current, results@, b as int, url@);
        }
    }
    Ok((info, kept))
}


/// Largest manifest (serialized JSON) accepted from a release channel (512 KiB).
pub const MAX_METADATA_BYTES: usize = 524288;

pub open spec fn platform_url(raw: DataNode, key: Seq<char>) -> DataNode {
    index(index(index(raw, "platforms"@), key), "url"@)
}

pub open spec fn url_listed(raw: DataNode, key: Seq<char>, url: Seq<char>) -> bool {
    platform_url(raw, key) matches DataNode::Text(u) && u@ == url
}

/// The manifest platform entry that lists the download: the MSI entry, then the
/// NSIS entry, then the plain target.
pub open spec fn manifest_key(raw: DataNode, target: Seq<char>, url: Seq<char>) -> Option<Seq<char>> {
    if url_listed(raw, target + "-msi"@, url) {
        Some(target + "-msi"@)
    } else if url_listed(raw, target + "-nsis"@, url) {
        Some(target + "-nsis"@)
    } else if url_listed(raw, target, url) {
        Some(target)
    } else {
        None
    }
}

pub open spec fn gitee_manifest_path(version: Seq<char>) -> Seq<char> {
    "/cmmuu/routedeck/releases/download/v"@ + version + "/latest-gitee.json"@
}

/// A Gitee manifest must come from the release of its own version.
pub open spec fn endpoint_ok(source: UpdateSource, endpoint: Seq<char>, version: Seq<char>) -> bool {
    source != UpdateSource::Gitee || (url_parts_of(endpoint) matches Some(p) && p.3
        == gitee_manifest_path(version))
}

pub open spec fn pub_date(raw: DataNode) -> Option<Seq<char>> {
    match index(raw, "pub_date"@) {
        DataNode::Text(s) => Some(s@),
        _ => None,
    }
}

pub open spec fn manifest_invalid_message() -> Seq<char> {
    "更新清单或签名无效"@
}

/// The outcome of checking a channel's manifest: the version, digest and size of
/// its package, or the message of the update error.
pub open spec fn manifest_verdict(
    source: UpdateSource,
    target: Seq<char>,
    version: Seq<char>,
    signature: Seq<char>,
    manifest_len: nat,
    url: Seq<char>,
    raw: DataNode,
    endpoint: Seq<char>,
) -> Result<(StableVersion, Seq<char>, u64), Seq<char>> {
    if parsed_version(version) is Err {
        Err(parsed_version(version)->Err_0)
    } else if encode_utf8(signature).len() > 4096 || trimmed(signature).len() == 0 || manifest_len
        > MAX_METADATA_BYTES {
        Err(manifest_invalid_message())
    } else if manifest_key(raw, target, url) is None {
        Err("更新包不属于当前系统架构"@)
    } else if spec_validate_asset(source, manifest_key(raw, target, url)->0, version, url, raw) is Err {
        Err(spec_validate_asset(source, manifest_key(raw, target, url)->0, version, url, raw)->Err_0)
    } else if !endpoint_ok(source, endpoint, version) {
        Err("Gitee 发布标签与更新清单版本不一致"@)
    } else {
        let asset = spec_validate_asset(source, manifest_key(raw, target, url)->0, version, url, raw)->Ok_0;
        Ok((parsed_version(version)->Ok_0, asset.0, asset.1))
    }
}

fn lists_url(raw: &DataNode, key: &str, url: &str) -> (r: bool)
    ensures
        r == url_listed(*raw, key@, url@),
{
    match get_field(raw, "platforms") {
        Some(platforms) => match get_field(platforms, key) {
            Some(platform) => match get_field(platform, "url") {
                Some(DataNode::Text(u)) => eq_str(u.as_str(), url),
                _ => false,
            },
            None => false,
        },
        None => false,
    }
}

fn find_manifest_key(raw: &DataNode, target: &str, url: &str) -> (r: Option<String>)
    ensures
        match manifest_key(*raw, target@, url@) {
            Some(k) => r matches Some(s) && s@ == k,
            None => r is None,
        },
{
    let msi = concat2(target, "-msi");
    if lists_url(raw, msi.as_str(), url) {
        return Some(msi);
    }
    let nsis = concat2(target, "-nsis");
    if lists_url(raw, nsis.as_str(), url) {
        return Some(nsis);
    }
    if lists_url(raw, target, url) {
        return Some(owned(target));
    }
    None
}

fn endpoint_matches(source: UpdateSource, endpoint: &str, version: &str) -> (r: bool)
    ensures
        r == endpoint_ok(source, endpoint@, version@),
{
    if source != UpdateSource::Gitee {
        return true;
    }
    let mut expected = concat2("/cmmuu/routedeck/releases/download/v", version);
    expected.append("/latest-gitee.json");
    match parse_url(endpoint) {
        Some(parts) => eq_str(parts.path.as_str(), expected.as_str()),
        None => false,
    }
}

fn publication_date(raw: &DataNode) -> (r: Option<String>)
    ensures
        match pub_date(*raw) {
            Some(p) => r matches Some(q) && q@ == p,
            None => r is None,
        },
{
    match get_field(raw, "pub_date") {
        Some(DataNode::Text(s)) => Some(owned(s.as_str())),
        _ => None,
    }
}

/// Checks what a channel's updater returned (version, signature, download URL and
/// raw manifest, fetched from `endpoint`) for the platform `target`, and keeps it
/// as a candidate. `manifest_len` is the length of the serialized manifest.
pub fn check_manifest(
    source: UpdateSource,
    target: &str,
    version: &str,
    signature: &str,
    manifest_len: usize,
    url: &str,
    raw: &DataNode,
    endpoint: &str,
    notes: Option<String>,
) -> (r: Result<ReleaseCandidate, AppError>)
    ensures
        match manifest_verdict(source, target@, version@, signature@, manifest_len as nat, url@, *raw, endpoint@) {
            Ok((v, h, n)) => r matches Ok(c) && c.source == source && c.version == v
                && c.version_text@ == version@ && c.sha256@ == h && c.size == n
                && c.signature@ == signature@ && c.notes@ == (match notes {
                Some(t) => t@,
                None => Seq::<char>::empty(),
            }) && (match pub_date(*raw) {
                Some(p) => c.published_at matches Some(q) && q@ == p,
                None => c.published_at is None,
            }),
            Err(m) => r matches Err(e) && is_update_error(e, m),
        },
        r matches Ok(c) ==> consistent(c),
{
    let parsed = match parse_version(version) {
        Ok(v) => v,
        Err(e) => {
            return Err(e);
        },
    };
    if signature.as_bytes().len() > 4096 || trim_chars(&chars_of(signature)).len() == 0 || manifest_len
        > MAX_METADATA_BYTES {
        return Err(failure(owned("更新清单或签名无效")));
    }
    let key = match find_manifest_key(raw, target, url) {
        Some(k) => k,
        None => {
            return Err(failure(owned("更新包不属于当前系统架构")));
        },
    };
    let (sha256, size) = match validate_asset(source, key.as_str(), version, url, raw) {
        Ok(pair) => pair,
        Err(e) => {
            return Err(e);
        },
    };
    if !endpoint_matches(source, endpoint, version) {
        return Err(failure(owned("Gitee 发布标签与更新清单版本不一致")));
    }
    let notes_text = match notes {
        Some(t) => t,
        None => String::new(),
    };
    Ok(ReleaseCandidate {
        source,
        version: parsed,
        version_text: owned(version),
        sha256,
        size,
        signature: owned(signature),
        notes: notes_text,
        published_at: publication_date(raw),
    })
}

/// The Gitee manifest location named by the latest Gitee release: only a stable,
/// published release with a strict `v<version>` tag is accepted.
pub open spec fn gitee_manifest_verdict(release: DataNode) -> Result<Seq<char>, Seq<char>> {
    let tag = index(release, "tag_name"@);
    if index(release, "prerelease"@) == DataNode::Bool(true) || index(release, "draft"@)
        == DataNode::Bool(true) {
        Err("Gitee 尚无稳定正式版"@)
    } else if !(tag is Text) {
        Err("Gitee 缺少发布标签"@)
    } else if spec_release_url(UpdateSource::Gitee, tag->Text_0@) is Err {
        Err(spec_release_url(UpdateSource::Gitee, tag->Text_0@)->Err_0)
    } else {
        let url = spec_release_base(UpdateSource::Gitee).unwrap() + "/download/"@ + tag->Text_0@
            + "/latest-gitee.json"@;
        if url_parts_of(url) is None {
            Err("Gitee 清单地址无效"@)
        } else {
            Ok(url)
        }
    }
}

fn is_true(n: Option<&DataNode>) -> (r: bool)
    ensures
        r == (n matches Some(v) && *v == DataNode::Bool(true)),
{
    match n {
        Some(DataNode::Bool(b)) => *b,
        _ => false,
    }
}

/// Reads the latest Gitee release (decoded JSON) and returns the address of its
/// update manifest.
pub fn gitee_manifest_url(release: &DataNode) -> (r: Result<String, AppError>)
    ensures
        match gitee_manifest_verdict(*release) {
            Ok(u) => r matches Ok(s) && s@ == u,
            Err(m) => r matches Err(e) && is_update_error(e, m),
        },
{
    if is_true(get_field(release, "prerelease")) || is_true(get_field(release, "draft")) {
        return Err(failure(owned("Gitee 尚无稳定正式版")));
    }
    let tag = match get_field(release, "tag_name") {
        Some(DataNode::Text(t)) => t,
        _ => {
            return Err(failure(owned("Gitee 缺少发布标签")));
        },
    };
    match official_release_url(UpdateSource::Gitee, tag.as_str()) {
        Ok(_) => {},
        Err(e) => {
            return Err(e);
        },
    }
    let mut url = concat2("https://gitee.com/cmmuu/routedeck/releases", "/download/");
    url.append(tag.as_str());
    url.append("/latest-gitee.json");
    match parse_url(url.as_str()) {
        Some(_) => Ok(url),
        None => Err(failure(owned("Gitee 清单地址无效"))),
    }
}

} // verus!
