//! Rules the application commands apply before touching storage or the core:
//! one subscription import at a time, which settings may change, and how
//! failures of multi-file updates are reported.
use vstd::prelude::*;
use vstd::string::*;
use crate::error::{AppError, AppErrorDto, spec_code, spec_message, spec_retryable, spec_stage};
use crate::sorted::{join, joined, views};
use crate::text::{concat2, owned};

verus! {

/// Error as shown to the interface.
pub fn dto(error: AppError) -> (r: AppErrorDto)
    ensures
        r.code@ == spec_code(error),
        r.stage@ == spec_stage(error),
        r.message@ == spec_message(error),
        r.retryable == spec_retryable(error),
{
    error.dto()
}

/// Only one subscription import runs at a time.
#[derive(Debug, Default)]
pub struct SubscriptionImportGuard {
    pub running: bool,
}

pub open spec fn import_busy_message() -> Seq<char> {
    "已有订阅正在导入，请等待当前校验完成"@
}

impl SubscriptionImportGuard {
    /// Takes the import slot; refused while another import holds it.
    pub fn acquire(&mut self) -> (r: Result<(), AppError>)
        ensures
            old(self).running ==> (r matches Err(AppError::Conflict(m)) && m@ == import_busy_message())
                && final(self).running,
            !old(self).running ==> r is Ok && final(self).running,
    {
        if self.running {
            return Err(AppError::Conflict(owned("已有订阅正在导入，请等待当前校验完成")));
        }
        self.running = true;
        Ok(())
    }

    /// Gives the slot back when the import ends, however it ended.
    pub fn release(&mut self)
        ensures
            !final(self).running,
    {
        self.running = false;
    }
}

/// What the interface asks to change, and what it is changed from.
#[derive(Debug, Clone, Copy)]
pub struct SettingsChange {
    pub core_running: bool,
    pub network_mode_changed: bool,
    pub switching_to_tun: bool,
    pub tun_ready: bool,
    pub mixed_port: u16,
    pub controller_port: u16,
    pub current_mixed_port: u16,
    pub current_controller_port: u16,
    pub diagnostics_retention_days: u32,
}

pub open spec fn changes_runtime_network(c: SettingsChange) -> bool {
    c.network_mode_changed || c.mixed_port != c.current_mixed_port || c.controller_port
        != c.current_controller_port
}

/// The first rule a settings change breaks, as the error kind and message.
pub open spec fn settings_problem(c: SettingsChange, theme_ok: bool) -> Option<(int, Seq<char>)> {
    if c.core_running && changes_runtime_network(c) {
        Some((0, "请先停止 Mihomo 再修改网络模式或运行端口"@))
    } else if c.switching_to_tun && !c.tun_ready {
        Some((1, "TUN Helper 尚未授权或不可用"@))
    } else if c.mixed_port == c.controller_port {
        Some((2, "mixed port 与 controller port 不能相同"@))
    } else if c.mixed_port < 1024 || c.controller_port < 1024 {
        Some((2, "代理端口和控制端口必须在 1024 到 65535 范围"@))
    } else if !theme_ok {
        Some((3, Seq::empty()))
    } else if !(1 <= c.diagnostics_retention_days <= 90) {
        Some((2, "日志保留天数必须在 1 到 90 之间"@))
    } else {
        None
    }
}

/// Checks a settings change. `theme` is the outcome of checking the requested
/// theme name, which is reported as it is.
pub fn check_settings_change(c: SettingsChange, theme: Result<(), AppError>) -> (r: Result<(), AppError>)
    ensures
        match settings_problem(c, theme is Ok) {
            None => r is Ok,
            Some((kind, m)) => r is Err && (kind == 0 ==> (r->Err_0 matches AppError::Conflict(x) && x@ == m))
                && (kind == 1 ==> (r->Err_0 matches AppError::Platform(x) && x@ == m))
                && (kind == 2 ==> (r->Err_0 matches AppError::InvalidInput(x) && x@ == m))
                && (kind == 3 ==> r == theme),
        },
{
    let changes = c.network_mode_changed || c.mixed_port != c.current_mixed_port
        || c.controller_port != c.current_controller_port;
    if c.core_running && changes {
        return Err(AppError::Conflict(owned("请先停止 Mihomo 再修改网络模式或运行端口")));
    }
    if c.switching_to_tun && !c.tun_ready {
        return Err(AppError::Platform(owned("TUN Helper 尚未授权或不可用")));
    }
    if c.mixed_port == c.controller_port {
        return Err(AppError::InvalidInput(owned("mixed port 与 controller port 不能相同")));
    }
    if c.mixed_port < 1024 || c.controller_port < 1024 {
        return Err(AppError::InvalidInput(owned("代理端口和控制端口必须在 1024 到 65535 范围")));
    }
    match theme {
        Ok(()) => {},
        Err(e) => {
            return Err(e);
        },
    }
    if !(1 <= c.diagnostics_retention_days && c.diagnostics_retention_days <= 90) {
        return Err(AppError::InvalidInput(owned("日志保留天数必须在 1 到 90 之间")));
    }
    Ok(())
}

/// The error of a failed subscription-check record: it says whether the
/// subscription itself failed or only the record could not be saved.
pub fn observation_failure(fetch_failed: bool) -> (r: AppError)
    ensures
        r matches AppError::Io(m) && m@ == (if fetch_failed {
            "订阅更新失败，且检查记录未能保存；请检查本地存储后重试"@
        } else {
            "订阅已获取，但检查记录未能保存；已保留配置结果，请检查本地存储"@
        }),
{
    AppError::Io(
        if fetch_failed {
            owned("订阅更新失败，且检查记录未能保存；请检查本地存储后重试")
        } else {
            owned("订阅已获取，但检查记录未能保存；已保留配置结果，请检查本地存储")
        },
    )
}

/// The error of a failed profile selection after the rollback of its files:
/// the selection error itself when every file was restored, otherwise one that lists
/// what could not be restored.
pub fn selection_failure(error: AppError, rollback_errors: &Vec<String>) -> (r: AppError)
    ensures
        rollback_errors@.len() == 0 ==> r == error,
        rollback_errors@.len() > 0 ==> (r matches AppError::Io(m) && m@ == "配置选择失败且部分文件恢复失败："@
            + spec_message(error) + "；"@ + joined(views(rollback_errors@), "；"@)),
{
    if rollback_errors.len() == 0 {
        return error;
    }
    let mut text = concat2("配置选择失败且部分文件恢复失败：", error.message().as_str());
    text.append("；");
    let listed = join(rollback_errors, "；");
    text.append(listed.as_str());
    AppError::Io(text)
}

/// The revision to activate: the requested one, else the profile's active one.
pub fn activation_target(requested: Option<u128>, active: Option<u128>) -> (r: Result<u128, AppError>)
    ensures
        match requested {
            Some(id) => r == Ok::<u128, AppError>(id),
            None => match active {
                Some(id) => r == Ok::<u128, AppError>(id),
                None => r matches Err(AppError::NotFound(m)) && m@ == "配置没有可激活版本"@,
            },
        },
{
    match requested {
        Some(id) => Ok(id),
        None => match active {
            Some(id) => Ok(id),
            None => Err(AppError::NotFound(owned("配置没有可激活版本"))),
        },
    }
}

/// The revision a rollback returns to: the last one known to work.
pub fn rollback_target(last_known_good: Option<u128>) -> (r: Result<u128, AppError>)
    ensures
        match last_known_good {
            Some(id) => r == Ok::<u128, AppError>(id),
            None => r matches Err(AppError::Conflict(m)) && m@ == "没有可回滚的稳定版本"@,
        },
{
    match last_known_good {
        Some(id) => Ok(id),
        None => Err(AppError::Conflict(owned("没有可回滚的稳定版本"))),
    }
}


/// A new revision goes live at once when activation is forced or the profile is
/// the active one; otherwise it is only validated and stored.
pub fn activates_now(force_activate: bool, active_profile: Option<u128>, profile: u128) -> (r: bool)
    ensures
        r == (force_activate || active_profile == Some(profile)),
{
    force_activate || match active_profile {
        Some(id) => id == profile,
        None => false,
    }
}

/// The first stored subscription with exactly this URL: importing it again
/// refreshes that profile instead of creating a second one.
pub fn existing_subscription(subscriptions: &Vec<(u128, String)>, url: &str) -> (r: Option<u128>)
    ensures
        match r {
            Some(id) => exists|i: int|
                0 <= i < subscriptions@.len() && (#[trigger] subscriptions@[i]).0 == id && subscriptions@[i].1@ == url@
                && forall|j: int| 0 <= j < i ==> (#[trigger] subscriptions@[j]).1@ != url@,
            None => forall|j: int| 0 <= j < subscriptions@.len() ==> (#[trigger] subscriptions@[j]).1@ != url@,
        },
{
    let mut i: usize = 0;
    while i < subscriptions.len()
        invariant
            i <= subscriptions.len(),
            forall|j: int| 0 <= j < i ==> (#[trigger] subscriptions@[j]).1@ != url@,
        decreases subscriptions.len() - i,
    {
        if crate::text::eq_str(subscriptions[i].1.as_str(), url) {
            assert(subscriptions@[i as int].1@ == url@);
            return Some(subscriptions[i].0);
        }
        i = i + 1;
    }
    None
}

} // verus!
