use vstd::prelude::*;
use vstd::string::*;

verus! {

/// Application error, classified by the stage that produced it.
#[derive(Debug, Clone, PartialEq, Eq)]
pub enum AppError {
    InvalidInput(String),
    NotFound(String),
    Conflict(String),
    Io(String),
    Subscription(String),
    Update(String),
    Config(String),
    Runtime(String),
    NetworkPreflight { message: String, retryable: bool },
    Platform(String),
}

/// The serialisable form handed to the user interface.
#[derive(Debug, Clone)]
pub struct AppErrorDto {
    pub code: String,
    pub stage: String,
    pub message: String,
    pub retryable: bool,
}

pub open spec fn spec_code(e: AppError) -> Seq<char> {
    match e {
        AppError::InvalidInput(_) => "INVALID_INPUT"@,
        AppError::NotFound(_) => "NOT_FOUND"@,
        AppError::Conflict(_) => "STATE_CONFLICT"@,
        AppError::Io(_) => "IO_ERROR"@,
        AppError::Subscription(_) => "SUBSCRIPTION_ERROR"@,
        AppError::Update(_) => "UPDATE_ERROR"@,
        AppError::Config(_) => "CONFIG_ERROR"@,
        AppError::Runtime(_) => "CORE_ERROR"@,
        AppError::NetworkPreflight { .. } => "NETWORK_CHECK_FAILED"@,
        AppError::Platform(_) => "PLATFORM_ERROR"@,
    }
}

pub open spec fn spec_stage(e: AppError) -> Seq<char> {
    match e {
        AppError::InvalidInput(_) => "input"@,
        AppError::NotFound(_) => "storage"@,
        AppError::Io(_) => "storage"@,
        AppError::Conflict(_) => "state"@,
        AppError::Subscription(_) => "subscription"@,
        AppError::Update(_) => "update"@,
        AppError::Config(_) => "config"@,
        AppError::Runtime(_) => "runtime"@,
        AppError::NetworkPreflight { .. } => "network"@,
        AppError::Platform(_) => "platform"@,
    }
}

/// Transient failures (network, update, core, platform) may be retried; a
/// preflight failure carries its own verdict.
pub open spec fn spec_retryable(e: AppError) -> bool {
    match e {
        AppError::NetworkPreflight { retryable, .. } => retryable,
        AppError::Subscription(_) => true,
        AppError::Update(_) => true,
        AppError::Runtime(_) => true,
        AppError::Platform(_) => true,
        _ => false,
    }
}

pub open spec fn spec_prefix(e: AppError) -> Seq<char> {
    match e {
        AppError::InvalidInput(_) => "输入错误: "@,
        AppError::NotFound(_) => "资源不存在: "@,
        AppError::Conflict(_) => "状态冲突: "@,
        AppError::Io(_) => "文件操作失败: "@,
        AppError::Subscription(_) => "订阅请求失败: "@,
        AppError::Update(_) => "应用更新失败: "@,
        AppError::Config(_) => "配置处理失败: "@,
        AppError::Runtime(_) => "Mihomo 运行失败: "@,
        AppError::NetworkPreflight { .. } => "网络预检失败: "@,
        AppError::Platform(_) => "系统网络设置失败: "@,
    }
}

pub open spec fn spec_detail(e: AppError) -> Seq<char> {
    match e {
        AppError::InvalidInput(s) => s@,
        AppError::NotFound(s) => s@,
        AppError::Conflict(s) => s@,
        AppError::Io(s) => s@,
        AppError::Subscription(s) => s@,
        AppError::Update(s) => s@,
        AppError::Config(s) => s@,
        AppError::Runtime(s) => s@,
        AppError::NetworkPreflight { message, .. } => message@,
        AppError::Platform(s) => s@,
    }
}

/// The human-readable text of an error: its stage prefix and its detail.
pub open spec fn spec_message(e: AppError) -> Seq<char> {
    spec_prefix(e) + spec_detail(e)
}

impl AppError {
    pub fn code(&self) -> (r: &'static str)
        ensures
            r@ == spec_code(*self),
    {
        match self {
            AppError::InvalidInput(_) => "INVALID_INPUT",
            AppError::NotFound(_) => "NOT_FOUND",
            AppError::Conflict(_) => "STATE_CONFLICT",
            AppError::Io(_) => "IO_ERROR",
            AppError::Subscription(_) => "SUBSCRIPTION_ERROR",
            AppError::Update(_) => "UPDATE_ERROR",
            AppError::Config(_) => "CONFIG_ERROR",
            AppError::Runtime(_) => "CORE_ERROR",
            AppError::NetworkPreflight { .. } => "NETWORK_CHECK_FAILED",
            AppError::Platform(_) => "PLATFORM_ERROR",
        }
    }

    pub fn stage(&self) -> (r: &'static str)
        ensures
            r@ == spec_stage(*self),
    {
        match self {
            AppError::InvalidInput(_) => "input",
            AppError::NotFound(_) => "storage",
            AppError::Io(_) => "storage",
            AppError::Conflict(_) => "state",
            AppError::Subscription(_) => "subscription",
            AppError::Update(_) => "update",
            AppError::Config(_) => "config",
            AppError::Runtime(_) => "runtime",
            AppError::NetworkPreflight { .. } => "network",
            AppError::Platform(_) => "platform",
        }
    }

    pub fn retryable(&self) -> (r: bool)
        ensures
            r == spec_retryable(*self),
    {
        match self {
            AppError::NetworkPreflight { retryable, .. } => *retryable,
            AppError::Subscription(_) => true,
            AppError::Update(_) => true,
            AppError::Runtime(_) => true,
            AppError::Platform(_) => true,
            _ => false,
        }
    }

    fn prefix(&self) -> (r: &'static str)
        ensures
            r@ == spec_prefix(*self),
    {
        match self {
            AppError::InvalidInput(_) => "输入错误: ",
            AppError::NotFound(_) => "资源不存在: ",
            AppError::Conflict(_) => "状态冲突: ",
            AppError::Io(_) => "文件操作失败: ",
            AppError::Subscription(_) => "订阅请求失败: ",
            AppError::Update(_) => "应用更新失败: ",
            AppError::Config(_) => "配置处理失败: ",
            AppError::Runtime(_) => "Mihomo 运行失败: ",
            AppError::NetworkPreflight { .. } => "网络预检失败: ",
            AppError::Platform(_) => "系统网络设置失败: ",
        }
    }

    fn detail(&self) -> (r: &str)
        ensures
            r@ == spec_detail(*self),
    {
        match self {
            AppError::InvalidInput(s) => s.as_str(),
            AppError::NotFound(s) => s.as_str(),
            AppError::Conflict(s) => s.as_str(),
            AppError::Io(s) => s.as_str(),
            AppError::Subscription(s) => s.as_str(),
            AppError::Update(s) => s.as_str(),
            AppError::Config(s) => s.as_str(),
            AppError::Runtime(s) => s.as_str(),
            AppError::NetworkPreflight { message, .. } => message.as_str(),
            AppError::Platform(s) => s.as_str(),
        }
    }

    /// The displayed message: the stage prefix followed by the detail.
    pub fn message(&self) -> (r: String)
        ensures
            r@ == spec_message(*self),
    {
        let mut text = String::from_str(self.prefix());
        text.append(self.detail());
        text
    }

    pub fn dto(&self) -> (r: AppErrorDto)
        ensures
            r.code@ == spec_code(*self),
            r.stage@ == spec_stage(*self),
            r.message@ == spec_message(*self),
            r.retryable == spec_retryable(*self),
    {
        AppErrorDto {
            code: String::from_str(self.code()),
            stage: String::from_str(self.stage()),
            message: self.message(),
            retryable: self.retryable(),
        }
    }
}

} // verus!
