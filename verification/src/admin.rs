//! What the cleaner says about system cleanup that needs administrator rights.
use vstd::prelude::*;

use crate::text::string_of;
use crate::v2::path_safety::views;

verus! {

/// Whether system cleanup with administrator rights is offered, and what it
/// would cover.
#[derive(Debug, Clone, PartialEq, Eq)]
pub struct AdminCleanupCapability {
    pub available: bool,
    pub title: String,
    pub description: String,
    pub supported_items: Vec<String>,
}

/// System cleanup with administrator rights is not offered yet; this says
/// what a later version would cover.
pub fn lightweight_admin_capability() -> (r: AdminCleanupCapability)
    ensures
        !r.available,
        r.title@ == "系统轻量清理（V0.2 计划）"@,
        r.description@
            == "V0.1 只展示能力说明，不执行提权清理；后续版本可在用户主动授权后清理 Windows 临时目录、Windows 更新下载缓存和安全系统日志。"@,
        views(r.supported_items@) == seq!["Windows 临时目录"@, "Windows 更新下载缓存"@, "系统日志"@],
{
    let mut items: Vec<String> = Vec::new();
    items.push(string_of("Windows 临时目录"));
    items.push(string_of("Windows 更新下载缓存"));
    items.push(string_of("系统日志"));
    assert(views(items@) =~= seq!["Windows 临时目录"@, "Windows 更新下载缓存"@, "系统日志"@]);
    AdminCleanupCapability {
        available: false,
        title: string_of("系统轻量清理（V0.2 计划）"),
        description: string_of(
            "V0.1 只展示能力说明，不执行提权清理；后续版本可在用户主动授权后清理 Windows 临时目录、Windows 更新下载缓存和安全系统日志。",
        ),
        supported_items: items,
    }
}

} // verus!
