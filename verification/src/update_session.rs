//! The updater's session: one operation at a time, the phase the interface shows,
//! and the package that may be installed.
use vstd::prelude::*;
use vstd::string::*;
use crate::app_update::{UpdateSource, official_release_url, spec_label, spec_release_url};
use crate::digest::{sha256_hex, sha256_hex_of};
use crate::error::{AppError, AppErrorDto, spec_code, spec_message, spec_retryable, spec_stage};
use crate::sorted::{join, joined, views};
use crate::text::{concat2, eq_str, owned};
use crate::update_check::{AppUpdateInfo, AppUpdateStatus, ReleaseCandidate, is_idle_status};
use crate::version::{failure, is_update_error, parse_version, parsed_version, version_less, version_lt};

verus! {

/// Updater state shared by the commands. The application keeps it behind a lock;
/// `busy` marks a running operation and `cancelled` a cancellation request.
#[derive(Debug)]
pub struct AppUpdateManager {
    pub status: AppUpdateStatus,
    /// The candidates of the last check, in download order.
    pub candidates: Vec<ReleaseCandidate>,
    /// A downloaded package whose size and digest were checked.
    pub ready: Option<(ReleaseCandidate, Vec<u8>)>,
    pub busy: bool,
    pub cancelled: bool,
}

pub open spec fn busy_message() -> Seq<char> {
    "已有更新操作正在进行"@
}

pub open spec fn interrupted_message() -> Seq<char> {
    "操作已中断，请重试"@
}

/// Phases during which an operation is running.
pub open spec fn in_progress(phase: Seq<char>) -> bool {
    phase == "checking"@ || phase == "downloading"@ || phase == "installing"@
}

/// The phase after a check: a newer build, a local build ahead of it, or current.
pub open spec fn check_phase(info: AppUpdateInfo) -> Seq<char> {
    if info.available {
        "available"@
    } else if info.ahead {
        "ahead"@
    } else {
        "current"@
    }
}

/// The offer still names `tag` as an available newer version.
pub open spec fn offers(info: Option<AppUpdateInfo>, tag: Seq<char>) -> bool {
    info matches Some(i) && i.available && i.latest_version@ == tag
}

/// Everything but the flags stays as it was.
pub open spec fn same_session(a: AppUpdateManager, b: AppUpdateManager) -> bool {
    a.status == b.status && a.candidates@ == b.candidates@ && a.ready == b.ready
}

/// The status fields other than the phase and the error stay as they were.
pub open spec fn same_progress(a: AppUpdateStatus, b: AppUpdateStatus) -> bool {
    a.info == b.info && a.downloaded_bytes == b.downloaded_bytes && a.total_bytes == b.total_bytes
}

pub open spec fn is_idle_manager(m: AppUpdateManager) -> bool {
    is_idle_status(m.status) && m.candidates@.len() == 0 && m.ready is None && !m.busy
        && !m.cancelled
}

/// A call of `begin` from state `a` that returned `r` and left state `b`.
pub open spec fn begin_step(a: AppUpdateManager, r: Result<(), AppError>, b: AppUpdateManager) -> bool {
    if a.busy {
        (r matches Err(AppError::Conflict(m)) && m@ == busy_message()) && b == a
    } else {
        r is Ok && b.busy && !b.cancelled && same_session(b, a)
    }
}

/// The end of an operation from state `a`, leaving state `b`.
pub open spec fn end_step(a: AppUpdateManager, b: AppUpdateManager) -> bool {
    &&& !b.busy
    &&& b.cancelled == a.cancelled
    &&& b.candidates@ == a.candidates@
    &&& b.ready == a.ready
    &&& same_progress(b.status, a.status)
    &&& if in_progress(a.status.phase@) {
        b.status.phase@ == "failed"@ && (b.status.error matches Some(m) && m@
            == interrupted_message())
    } else {
        b.status == a.status
    }
}

/// While an operation runs, every further `begin` is refused and changes nothing.
pub proof fn operations_are_exclusive(
    a: AppUpdateManager,
    r1: Result<(), AppError>,
    b: AppUpdateManager,
    r2: Result<(), AppError>,
    c: AppUpdateManager,
)
    requires
        begin_step(a, r1, b),
        r1 is Ok,
        begin_step(b, r2, c),
    ensures
        r2 is Err,
        c == b,
{
}

/// After an operation ends, a retry starts and no earlier cancellation request
/// carries over to it.
pub proof fn retry_clears_cancellation(
    a: AppUpdateManager,
    b: AppUpdateManager,
    r: Result<(), AppError>,
    c: AppUpdateManager,
)
    requires
        end_step(a, b),
        begin_step(b, r, c),
    ensures
        r is Ok,
        c.busy,
        !c.cancelled,
{
}

/// An operation that ends while checking, downloading or installing is shown as
/// failed, with the request to retry.
pub proof fn interrupted_operations_fail(a: AppUpdateManager, b: AppUpdateManager)
    requires
        end_step(a, b),
        in_progress(a.status.phase@),
    ensures
        b.status.phase@ == "failed"@,
        b.status.error matches Some(m) && m@ == interrupted_message(),
        !b.busy,
{
}

impl Default for AppUpdateManager {
    fn default() -> (r: Self)
        ensures
            is_idle_manager(r),
    {
        AppUpdateManager {
            status: AppUpdateStatus::default(),
            candidates: Vec::new(),
            ready: None,
            busy: false,
            cancelled: false,
        }
    }
}

/// Message for a failed download attempt on one channel.
pub open spec fn attempt_message(source: UpdateSource, error: AppError) -> Seq<char> {
    spec_label(source) + "："@ + spec_message(error)
}

/// Whether the progress reported while downloading already contradicts the
/// manifest: more bytes than announced, or another announced total.
pub open spec fn exceeds_manifest(received: u64, total: Option<u64>, size: u64) -> bool {
    received > size || (total matches Some(t) && t != size)
}

pub fn oversized_download(received: u64, total: Option<u64>, size: u64) -> (r: bool)
    ensures
        r == exceeds_manifest(received, total, size),
{
    received > size || match total {
        Some(t) => t != size,
        None => false,
    }
}

pub open spec fn cancelled_message() -> Seq<char> {
    "下载已取消"@
}

pub open spec fn package_mismatch_message() -> Seq<char> {
    "更新包大小或 SHA-256 校验失败，已拒绝安装"@
}

/// The verdict on a finished download.
pub open spec fn download_verdict(
    candidate: ReleaseCandidate,
    bytes: Seq<u8>,
    oversized: bool,
    cancelled: bool,
) -> Result<(), Seq<char>> {
    if cancelled {
        Err(cancelled_message())
    } else if oversized || bytes.len() != candidate.size || sha256_hex(bytes) != candidate.sha256@ {
        Err(package_mismatch_message())
    } else {
        Ok(())
    }
}

/// Accepts a downloaded package only when it was not cancelled, never exceeded
/// the manifest, and has exactly the announced size and SHA-256.
pub fn verify_download(candidate: &ReleaseCandidate, bytes: &[u8], oversized: bool, cancelled: bool) -> (r: Result<(), AppError>)
    ensures
        match download_verdict(*candidate, bytes@, oversized, cancelled) {
            Ok(()) => r is Ok,
            Err(m) => r matches Err(e) && is_update_error(e, m),
        },
{
    if cancelled {
        return Err(failure(owned("下载已取消")));
    }
    if oversized || bytes.len() as u64 != candidate.size {
        return Err(failure(owned("更新包大小或 SHA-256 校验失败，已拒绝安装")));
    }
    let digest = sha256_hex_of(bytes);
    if !eq_str(digest.as_str(), candidate.sha256.as_str()) {
        return Err(failure(owned("更新包大小或 SHA-256 校验失败，已拒绝安装")));
    }
    Ok(())
}

/// One line of the combined download error: the channel and what went wrong.
pub fn attempt_failure(source: UpdateSource, error: &AppError) -> (r: String)
    ensures
        r@ == attempt_message(source, *error),
{
    let mut line = concat2(source.label(), "：");
    let text = error.message();
    line.append(text.as_str());
    line
}

/// The error reported when no channel delivered a valid package.
pub fn downloads_failed(lines: &Vec<String>) -> (r: AppError)
    ensures
        is_update_error(r, joined(views(lines@), "；"@)),
{
    failure(join(lines, "；"))
}

pub open spec fn install_gate_message() -> Seq<char> {
    "请先下载并验证当前选定的新版本"@
}

pub open spec fn package_missing_message() -> Seq<char> {
    "已验证的安装包不可用，请重新下载"@
}

pub open spec fn install_mismatch_message() -> Seq<char> {
    "安装包版本或摘要校验失败"@
}

/// Whether the downloaded package may be installed over `current_text`.
pub open spec fn install_verdict(m: AppUpdateManager, tag: Seq<char>, current_text: Seq<char>) -> Result<(), Seq<char>> {
    if m.status.phase@ != "ready"@ || !offers(m.status.info, tag) {
        Err(install_gate_message())
    } else if m.ready is None {
        Err(package_missing_message())
    } else if parsed_version(current_text) is Err {
        Err(parsed_version(current_text)->Err_0)
    } else {
        let (c, bytes) = m.ready->0;
        if !version_lt(parsed_version(current_text)->Ok_0, c.version) || sha256_hex(bytes@)
            != c.sha256@ {
            Err(install_mismatch_message())
        } else {
            Ok(())
        }
    }
}

impl AppUpdateManager {
    /// Starts an operation. Only one may run at a time; a new operation clears
    /// any earlier cancellation request.
    pub fn begin(&mut self) -> (r: Result<(), AppError>)
        ensures
            begin_step(*old(self), r, *final(self)),
    {
        if self.busy {
            return Err(AppError::Conflict(owned("已有更新操作正在进行")));
        }
        self.busy = true;
        self.cancelled = false;
        Ok(())
    }

    /// Ends the running operation. One that stopped mid-way is shown as failed.
    pub fn end_operation(&mut self)
        ensures
            end_step(*old(self), *final(self)),
    {
        if eq_str(self.status.phase.as_str(), "checking") || eq_str(
            self.status.phase.as_str(),
            "downloading",
        ) || eq_str(self.status.phase.as_str(), "installing") {
            self.status.phase = owned("failed");
            self.status.error = Some(owned("操作已中断，请重试"));
        }
        self.busy = false;
    }

    /// Records a failed operation: cancelled when a cancellation was requested,
    /// failed otherwise. Returns what the interface shows.
    pub fn finish_error(&mut self, error: &AppError) -> (r: AppErrorDto)
        ensures
            final(self).status.phase@ == (if old(self).cancelled {
                "cancelled"@
            } else {
                "failed"@
            }),
            final(self).status.error matches Some(m) && m@ == spec_message(*error),
            same_progress(final(self).status, old(self).status),
            final(self).candidates@ == old(self).candidates@,
            final(self).ready == old(self).ready,
            final(self).busy == old(self).busy,
            final(self).cancelled == old(self).cancelled,
            r.code@ == spec_code(*error),
            r.stage@ == spec_stage(*error),
            r.message@ == spec_message(*error),
            r.retryable == spec_retryable(*error),
    {
        self.status.phase = if self.cancelled {
            owned("cancelled")
        } else {
            owned("failed")
        };
        self.status.error = Some(error.message());
        error.dto()
    }

    /// Forgets the last check and any downloaded package.
    pub fn reset(&mut self)
        ensures
            is_idle_status(final(self).status),
            final(self).candidates@.len() == 0,
            final(self).ready is None,
            final(self).busy == old(self).busy,
            final(self).cancelled == old(self).cancelled,
    {
        self.status = AppUpdateStatus::default();
        self.candidates = Vec::new();
        self.ready = None;
    }

    /// A check starts from a clean session.
    pub fn start_check(&mut self)
        ensures
            final(self).status.phase@ == "checking"@,
            final(self).status.info is None,
            final(self).status.error is None,
            final(self).status.downloaded_bytes == 0,
            final(self).status.total_bytes == 0,
            final(self).candidates@.len() == 0,
            final(self).ready is None,
            final(self).busy == old(self).busy,
            final(self).cancelled == old(self).cancelled,
    {
        self.reset();
        self.status.phase = owned("checking");
    }

    /// Stores the outcome of a successful check.
    pub fn complete_check(&mut self, info: AppUpdateInfo, candidates: Vec<ReleaseCandidate>)
        ensures
            final(self).status.phase@ == check_phase(info),
            final(self).status.info == Some(info),
            final(self).status.error == old(self).status.error,
            final(self).status.downloaded_bytes == old(self).status.downloaded_bytes,
            final(self).status.total_bytes == old(self).status.total_bytes,
            final(self).candidates@ == candidates@,
            final(self).ready == old(self).ready,
            final(self).busy == old(self).busy,
            final(self).cancelled == old(self).cancelled,
    {
        self.status.phase = if info.available {
            owned("available")
        } else if info.ahead {
            owned("ahead")
        } else {
            owned("current")
        };
        self.status.info = Some(info);
        self.candidates = candidates;
    }

    /// Starts a download of the offered version `tag`; refused when the offer
    /// changed or is not newer.
    pub fn start_download(&mut self, tag: &str) -> (r: Result<(), AppError>)
        ensures
            !offers(old(self).status.info, tag@) ==> (r matches Err(e) && is_update_error(
                e,
                "更新版本已变化或不是新版本，请重新检查"@,
            )) && *final(self) == *old(self),
            offers(old(self).status.info, tag@) ==> r is Ok && final(self).ready is None
                && final(self).status.phase@ == "downloading"@ && final(self).status.error is None
                && same_progress(final(self).status, old(self).status)
                && final(self).candidates@ == old(self).candidates@ && final(self).busy == old(
                self,
            ).busy && final(self).cancelled == old(self).cancelled,
    {
        let offered = match &self.status.info {
            Some(info) => info.available && eq_str(info.latest_version.as_str(), tag),
            None => false,
        };
        if !offered {
            return Err(failure(owned("更新版本已变化或不是新版本，请重新检查")));
        }
        self.ready = None;
        self.status.phase = owned("downloading");
        self.status.error = None;
        Ok(())
    }

    /// Switches the shown progress and release page to the candidate being downloaded.
    pub fn select_candidate(&mut self, candidate: &ReleaseCandidate, tag: &str) -> (r: Result<(), AppError>)
        ensures
            final(self).status.downloaded_bytes == 0,
            final(self).status.total_bytes == candidate.size,
            final(self).status.phase == old(self).status.phase,
            final(self).status.error == old(self).status.error,
            final(self).candidates@ == old(self).candidates@,
            final(self).ready == old(self).ready,
            final(self).busy == old(self).busy,
            final(self).cancelled == old(self).cancelled,
            match old(self).status.info {
                None => r is Ok && final(self).status.info is None,
                Some(i) => (final(self).status.info matches Some(j) && j.source == candidate.source
                    && j.current_version == i.current_version && j.latest_version
                    == i.latest_version && j.available == i.available && j.ahead == i.ahead
                    && j.notes == i.notes && j.published_at == i.published_at && j.channels
                    == i.channels && match spec_release_url(candidate.source, tag@) {
                    Ok(url) => r is Ok && j.release_url@ == url,
                    Err(m) => (r matches Err(e) && is_update_error(e, m)) && j.release_url
                        == i.release_url,
                }),
            },
    {
        self.status.downloaded_bytes = 0;
        self.status.total_bytes = candidate.size;
        match &mut self.status.info {
            Some(info) => {
                info.source = candidate.source;
                match official_release_url(candidate.source, tag) {
                    Ok(url) => {
                        info.release_url = url;
                        Ok(())
                    },
                    Err(e) => Err(e),
                }
            },
            None => Ok(()),
        }
    }

    /// Progress of the running download.
    pub fn record_progress(&mut self, received: u64)
        ensures
            final(self).status.downloaded_bytes == received,
            final(self).status.phase == old(self).status.phase,
            final(self).status.info == old(self).status.info,
            final(self).status.total_bytes == old(self).status.total_bytes,
            final(self).status.error == old(self).status.error,
            final(self).candidates@ == old(self).candidates@,
            final(self).ready == old(self).ready,
            final(self).busy == old(self).busy,
            final(self).cancelled == old(self).cancelled,
    {
        self.status.downloaded_bytes = received;
    }

    /// Keeps a package that passed `verify_download`.
    pub fn finish_download(&mut self, candidate: ReleaseCandidate, bytes: Vec<u8>)
        ensures
            final(self).status.phase@ == "ready"@,
            final(self).ready == Some((candidate, bytes)),
            same_progress(final(self).status, old(self).status),
            final(self).status.error == old(self).status.error,
            final(self).candidates@ == old(self).candidates@,
            final(self).busy == old(self).busy,
            final(self).cancelled == old(self).cancelled,
    {
        self.status.phase = owned("ready");
        self.ready = Some((candidate, bytes));
    }

    /// A cancellation request only takes effect while downloading.
    pub fn cancel(&mut self)
        ensures
            final(self).cancelled == (old(self).cancelled || old(self).status.phase@
                == "downloading"@),
            same_session(*final(self), *old(self)),
            final(self).busy == old(self).busy,
    {
        if eq_str(self.status.phase.as_str(), "downloading") {
            self.cancelled = true;
        }
    }

    /// Checks that the downloaded package is the offered newer version and still
    /// has its verified digest.
    pub fn check_install(&self, tag: &str, current_text: &str) -> (r: Result<(), AppError>)
        ensures
            match install_verdict(*self, tag@, current_text@) {
                Ok(()) => r is Ok,
                Err(m) => r matches Err(e) && is_update_error(e, m),
            },
    {
        let offered = match &self.status.info {
            Some(info) => info.available && eq_str(info.latest_version.as_str(), tag),
            None => false,
        };
        if !eq_str(self.status.phase.as_str(), "ready") || !offered {
            return Err(failure(owned("请先下载并验证当前选定的新版本")));
        }
        let (candidate, bytes) = match &self.ready {
            Some(pair) => (&pair.0, &pair.1),
            None => {
                return Err(failure(owned("已验证的安装包不可用，请重新下载")));
            },
        };
        let current = match parse_version(current_text) {
            Ok(v) => v,
            Err(e) => {
                return Err(e);
            },
        };
        let digest = sha256_hex_of(bytes.as_slice());
        if !version_less(current, candidate.version) || !eq_str(
            digest.as_str(),
            candidate.sha256.as_str(),
        ) {
            return Err(failure(owned("安装包版本或摘要校验失败")));
        }
        Ok(())
    }

    /// Hands the verified package to the installer.
    pub fn begin_install(&mut self) -> (r: Result<(ReleaseCandidate, Vec<u8>), AppError>)
        ensures
            match old(self).ready {
                Some(pair) => r == Ok::<(ReleaseCandidate, Vec<u8>), AppError>(pair)
                    && final(self).ready is None && final(self).status.phase@ == "installing"@
                    && same_progress(final(self).status, old(self).status)
                    && final(self).status.error == old(self).status.error,
                None => (r matches Err(e) && is_update_error(e, "安装包已失效"@)) && *final(self)
                    == *old(self),
            },
            final(self).candidates@ == old(self).candidates@,
            final(self).busy == old(self).busy,
            final(self).cancelled == old(self).cancelled,
    {
        match self.ready.take() {
            Some(pair) => {
                self.status.phase = owned("installing");
                Ok(pair)
            },
            None => Err(failure(owned("安装包已失效"))),
        }
    }
}


pub open spec fn confirm_message() -> Seq<char> {
    "安装需要用户确认；安装期间代理会暂时停止"@
}

impl AppUpdateManager {
    /// Whether an install may go ahead. Its disruptive work (shutting down
    /// local routing, stopping the stability checks, restoring the system proxy,
    /// stopping the core, cancelling the policy task, stopping the traffic
    /// monitor, marking a clean shutdown, handing over the package) may start only
    /// after this returns `Ok`, with the operation it began still running. A
    /// refusal changes nothing when the install was not confirmed or another
    /// operation runs; a refusal of the package itself is shown as a failed
    /// operation and ends it.
    pub fn approve_install(&mut self, confirmed: bool, tag: &str, current_text: &str) -> (r: Result<(), AppError>)
        ensures
            !confirmed ==> (r matches Err(e) && is_update_error(e, confirm_message())) && *final(self)
                == *old(self),
            confirmed && old(self).busy ==> (r matches Err(AppError::Conflict(m)) && m@ == busy_message())
                && *final(self) == *old(self),
            confirmed && !old(self).busy ==> match install_verdict(*old(self), tag@, current_text@) {
                Ok(()) => r is Ok && final(self).busy && !final(self).cancelled && same_session(
                    *final(self),
                    *old(self),
                ),
                Err(m) => {
                    &&& (r matches Err(e) && is_update_error(e, m))
                    &&& !final(self).busy
                    &&& final(self).status.phase@ == "failed"@
                    &&& (final(self).status.error matches Some(x) && x@ == spec_message(r->Err_0))
                    &&& same_progress(final(self).status, old(self).status)
                    &&& final(self).candidates@ == old(self).candidates@
                    &&& final(self).ready == old(self).ready
                },
            },
    {
        if !confirmed {
            return Err(failure(owned("安装需要用户确认；安装期间代理会暂时停止")));
        }
        match self.begin() {
            Ok(()) => {},
            Err(e) => {
                return Err(e);
            },
        }
        match self.check_install(tag, current_text) {
            Ok(()) => Ok(()),
            Err(e) => {
                assert(!self.cancelled);
                let _shown = self.finish_error(&e);
                proof {
                    assert(self.status.phase@ == "failed"@);
                    reveal_strlit("failed");
                    reveal_strlit("checking");
                    reveal_strlit("downloading");
                    reveal_strlit("installing");
                    assert(!in_progress(self.status.phase@));
                }
                self.end_operation();
                Err(e)
            },
        }
    }
}

} // verus!
