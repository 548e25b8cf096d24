//! Services over the database: groups, workspaces and the synchronisation of
//! a workspace's skills directory.

pub mod names;
pub mod skill_group;
pub mod workspace_skill;
pub mod workspace_sync;

use crate::database::AppError;
use vstd::prelude::*;
use vstd::string::StringExecFns;

verus! {

/// The error of a service operation.
#[derive(Debug)]
pub enum ServiceError {
    /// The data access layer failed.
    Database(AppError),
    /// No group has the given id.
    GroupNotFound(String),
    /// No workspace has the given id.
    WorkspaceNotFound(String),
    /// The skills directory under the workspace path could not be created.
    CreateSkillsDir(String),
    /// The directory that holds the installed skills could not be found.
    SsotDir(String),
    /// The manifest file exists but could not be read.
    ManifestRead(String),
    /// The manifest file is not a JSON array of strings.
    ManifestParse(String),
    /// The manifest file could not be written.
    ManifestWrite(String),
    /// A synchronisation was handed an event that does not answer its last step.
    UnexpectedEvent,
    /// The system clock reads before the Unix epoch (or out of range).
    Clock,
}

/// The text of an error of the data access layer.
pub open spec fn app_error_text(e: AppError) -> Seq<char> {
    match e {
        AppError::Database(m) => m@,
    }
}

/// The text of a service error, as the user sees it.
pub open spec fn service_error_text(e: ServiceError) -> Seq<char> {
    match e {
        ServiceError::Database(a) => app_error_text(a),
        ServiceError::GroupNotFound(id) => "分组不存在: "@ + id@,
        ServiceError::WorkspaceNotFound(id) => "工作空间不存在: "@ + id@,
        ServiceError::CreateSkillsDir(m) => m@,
        ServiceError::SsotDir(m) => m@,
        ServiceError::ManifestRead(m) => "读取 skills 清单失败，跳过本轮同步以保留旧清单: 读取清单失败: "@ + m@,
        ServiceError::ManifestParse(m) => "读取 skills 清单失败，跳过本轮同步以保留旧清单: 解析清单失败: "@ + m@,
        ServiceError::ManifestWrite(m) => "写入 skills 清单失败，本轮同步未持久化: "@ + m@,
        ServiceError::UnexpectedEvent => "同步事件与当前步骤不符"@,
        ServiceError::Clock => "系统时间早于 Unix 纪元"@,
    }
}

/// `prefix` followed by `rest`.
fn prefixed(prefix: &str, rest: &String) -> (s: String)
    ensures
        s@ == prefix@ + rest@,
{
    let mut s = String::from_str(prefix);
    s.append(rest.as_str());
    s
}

impl AppError {
    /// The error's text.
    pub fn message(&self) -> (m: String)
        ensures
            m@ == app_error_text(*self),
    {
        match self {
            AppError::Database(m) => m.clone(),
        }
    }
}

impl ServiceError {
    /// The error's text, as the user sees it.
    pub fn message(&self) -> (m: String)
        ensures
            m@ == service_error_text(*self),
    {
        match self {
            ServiceError::Database(a) => a.message(),
            ServiceError::GroupNotFound(id) => prefixed("分组不存在: ", id),
            ServiceError::WorkspaceNotFound(id) => prefixed("工作空间不存在: ", id),
            ServiceError::CreateSkillsDir(m) => m.clone(),
            ServiceError::SsotDir(m) => m.clone(),
            ServiceError::ManifestRead(m) => prefixed(
                "读取 skills 清单失败，跳过本轮同步以保留旧清单: 读取清单失败: ",
                m,
            ),
            ServiceError::ManifestParse(m) => prefixed(
                "读取 skills 清单失败，跳过本轮同步以保留旧清单: 解析清单失败: ",
                m,
            ),
            ServiceError::ManifestWrite(m) => prefixed("写入 skills 清单失败，本轮同步未持久化: ", m),
            ServiceError::UnexpectedEvent => String::from_str("同步事件与当前步骤不符"),
            ServiceError::Clock => String::from_str("系统时间早于 Unix 纪元"),
        }
    }
}

/// `std::time::SystemTime::now().duration_since(UNIX_EPOCH)`: the time since
/// the Unix epoch as whole seconds and the nanoseconds beyond them, or `None`
/// where the clock reads before the epoch. It depends on the clock: only
/// that the nanoseconds stay under one second is stated.
#[verifier::external_body]
fn system_time_since_epoch() -> (res: Option<(u64, u32)>)
    ensures
        res matches Some(d) ==> d.1 < 1_000_000_000,
{
    std::time::SystemTime::now().duration_since(std::time::UNIX_EPOCH).ok().map(|d| (d.as_secs(), d.subsec_nanos()))
}

/// The last whole second that chrono's `DateTime<Utc>` can hold:
/// 262142-12-31 23:59:59 UTC, as seconds since the Unix epoch.
pub const LAST_UTC_SECOND: u64 = 8_210_266_876_799;

/// `chrono::DateTime::from_timestamp(secs, nanos)` read back with
/// `timestamp()`. The two round-trip, so where there is an instant its
/// whole seconds are `secs`. From the epoch to `LAST_UTC_SECOND`, with
/// nanoseconds under one second, there is one; after `LAST_UTC_SECOND` the
/// date lies past chrono's last year and there is none.
#[verifier::external_body]
fn utc_timestamp(secs: i64, nanos: u32) -> (res: Option<i64>)
    ensures
        res matches Some(t) ==> t == secs,
        0 <= secs <= LAST_UTC_SECOND && nanos < 1_000_000_000 ==> res == Some(secs),
        secs > LAST_UTC_SECOND ==> res is None,
{
    chrono::DateTime::from_timestamp(secs, nanos).map(|t| t.timestamp())
}

/// The time in whole seconds since the Unix epoch that a clock reading
/// (whole seconds and the nanoseconds beyond them) gives, as chrono reads
/// it: none without a reading or past chrono's last second.
pub fn timestamp_of(reading: Option<(u64, u32)>) -> (t: Option<i64>)
    ensures
        match reading {
            None => t is None,
            Some((secs, nanos)) => {
                &&& secs <= LAST_UTC_SECOND && nanos < 1_000_000_000 ==> t == Some(secs as i64)
                &&& secs > LAST_UTC_SECOND ==> t is None
                &&& t matches Some(x) ==> x == secs
            },
        },
{
    match reading {
        Some((secs, nanos)) => {
            if secs > LAST_UTC_SECOND {
                None
            } else {
                utc_timestamp(secs as i64, nanos)
            }
        },
        None => None,
    }
}

/// The current time in whole seconds since the Unix epoch, as chrono gives
/// it (see `timestamp_of`), or `None` where the clock reads before the
/// epoch or out of range.
pub(crate) fn unix_time_now() -> (t: Option<i64>)
    ensures
        t matches Some(x) ==> x >= 0,
{
    timestamp_of(system_time_since_epoch())
}

/// `uuid::Uuid::new_v4().to_string()`: a random id in the hyphenated form,
/// whose text is always 36 characters long. Nothing else is stated of it.
#[verifier::external_body]
pub(crate) fn new_uuid() -> (id: String)
    ensures
        id@.len() == 36,
{
    uuid::Uuid::new_v4().to_string()
}

/// Lifts an error of the data access layer.
pub fn db_err(e: AppError) -> (res: ServiceError)
    ensures
        res == ServiceError::Database(e),
{
    ServiceError::Database(e)
}

} // verus!
