//! The built-in cleanup rules: the only locations a C drive cleanup may
//! touch, with how risky each one is and what cleaning it does.
use vstd::prelude::*;

use crate::models::{CleanupAction, RiskLevel, SourceCategory};
use crate::text::string_of;

verus! {

/// Where a rule's location lies, relative to a known folder.
#[derive(Debug, Clone, PartialEq, Eq)]
pub enum RuleScope {
    UserLocalAppDataRelative(String),
    UserProfileRelative(String),
    WindowsRelative(String),
    Absolute(String),
}

/// One built-in cleanup rule.
#[derive(Debug, Clone, PartialEq, Eq)]
pub struct CleanupRule {
    pub id: String,
    pub title: String,
    pub description: String,
    pub source_category: SourceCategory,
    pub risk_level: RiskLevel,
    pub cleanup_action: CleanupAction,
    pub default_selected: bool,
    pub scope: RuleScope,
    pub delete_contents_only: bool,
    pub min_age_minutes: u64,
    /// Whether a reference from a tool's configuration keeps the location
    /// from being cleaned.
    pub protect_config_references: bool,
}

/// A copy of a scope.
pub fn copy_scope(s: &RuleScope) -> (r: RuleScope)
    ensures
        r == *s,
{
    match s {
        RuleScope::UserLocalAppDataRelative(p) => RuleScope::UserLocalAppDataRelative(p.clone()),
        RuleScope::UserProfileRelative(p) => RuleScope::UserProfileRelative(p.clone()),
        RuleScope::WindowsRelative(p) => RuleScope::WindowsRelative(p.clone()),
        RuleScope::Absolute(p) => RuleScope::Absolute(p.clone()),
    }
}

/// A copy of a rule.
pub fn copy_rule(r: &CleanupRule) -> (c: CleanupRule)
    ensures
        c == *r,
{
    CleanupRule {
        id: r.id.clone(),
        title: r.title.clone(),
        description: r.description.clone(),
        source_category: r.source_category,
        risk_level: r.risk_level,
        cleanup_action: r.cleanup_action,
        default_selected: r.default_selected,
        scope: copy_scope(&r.scope),
        delete_contents_only: r.delete_contents_only,
        min_age_minutes: r.min_age_minutes,
        protect_config_references: r.protect_config_references,
    }
}

/// The scope of a rule as a kind (0 local app data, 1 user profile, 2
/// Windows folder, 3 absolute) and a path text.
pub open spec fn scope_parts(s: RuleScope) -> (int, Seq<char>) {
    match s {
        RuleScope::UserLocalAppDataRelative(p) => (0, p@),
        RuleScope::UserProfileRelative(p) => (1, p@),
        RuleScope::WindowsRelative(p) => (2, p@),
        RuleScope::Absolute(p) => (3, p@),
    }
}

/// `r` has the given fields.
pub open spec fn rule_is(
    r: CleanupRule,
    id: Seq<char>,
    title: Seq<char>,
    description: Seq<char>,
    source_category: SourceCategory,
    risk_level: RiskLevel,
    cleanup_action: CleanupAction,
    default_selected: bool,
    scope: (int, Seq<char>),
    delete_contents_only: bool,
    min_age_minutes: u64,
    protect_config_references: bool,
) -> bool {
    &&& r.id@ == id
    &&& r.title@ == title
    &&& r.description@ == description
    &&& r.source_category == source_category
    &&& r.risk_level == risk_level
    &&& r.cleanup_action == cleanup_action
    &&& r.default_selected == default_selected
    &&& scope_parts(r.scope) == scope
    &&& r.delete_contents_only == delete_contents_only
    &&& r.min_age_minutes == min_age_minutes
    &&& r.protect_config_references == protect_config_references
}

/// Rule `k` of the built-in rules.
pub open spec fn builtin_rule(r: CleanupRule, k: int) -> bool {
    if k == 0 {
        rule_is(r, "user-temp"@, "用户临时文件"@, "软件运行时留下的临时材料，通常可以安全删除。"@, SourceCategory::System,
            RiskLevel::Recommended, CleanupAction::DirectDelete, true, (0, "Temp"@), true, 10, false)
    } else if k == 1 {
        rule_is(r, "windows-temp"@, "Windows 临时文件"@,
            "系统和安装程序留下的临时材料，需要管理员权限；V0.1 只展示能力说明，不执行提权清理。"@, SourceCategory::System,
            RiskLevel::Recommended, CleanupAction::RequiresAdmin, false, (2, "Temp"@), true, 30, true)
    } else if k == 2 {
        rule_is(r, "windows-update-download"@, "Windows 更新下载缓存"@,
            "Windows 更新下载后的缓存文件，需要管理员权限；V0.1 只展示能力说明，不执行提权清理。"@, SourceCategory::System,
            RiskLevel::Recommended, CleanupAction::RequiresAdmin, false, (2, "SoftwareDistribution\\Download"@), true, 60,
            true)
    } else if k == 3 {
        rule_is(r, "wechat-data-root"@, "微信数据根目录"@,
            "微信数据根目录可能包含聊天数据库、图片、视频和文件。V0.1 不提供整目录删除。"@, SourceCategory::Wechat,
            RiskLevel::NotCleanable, CleanupAction::ExplainOnly, false, (1, "Documents\\WeChat Files"@), false, 0, true)
    } else if k == 4 {
        rule_is(r, "qq-data-root"@, "QQ 数据根目录"@,
            "QQ 数据根目录可能包含聊天数据库、图片、视频、群文件和下载文件。V0.1 不提供整目录删除。"@, SourceCategory::Qq,
            RiskLevel::NotCleanable, CleanupAction::ExplainOnly, false, (1, "Documents\\Tencent Files"@), false, 0, true)
    } else {
        rule_is(r, "vscode-cached-vsix"@, "VS Code 扩展安装包缓存"@, "VS Code 下载扩展时留下的安装包缓存，可重新下载。"@,
            SourceCategory::InstallersOldVersions, RiskLevel::Recommended, CleanupAction::DirectDelete, true,
            (1, "AppData\\Roaming\\Code\\CachedExtensionVSIXs"@), false, 10, true)
    }
}

/// `rules` are the built-in rules, in order.
pub open spec fn are_builtin_rules(rules: Seq<CleanupRule>) -> bool {
    rules.len() == 6 && forall|k: int| 0 <= k < 6 ==> #[trigger] builtin_rule(rules[k], k)
}

fn rule(
    id: &str,
    title: &str,
    description: &str,
    source_category: SourceCategory,
    risk_level: RiskLevel,
    cleanup_action: CleanupAction,
    default_selected: bool,
    scope: RuleScope,
    delete_contents_only: bool,
    min_age_minutes: u64,
    protect_config_references: bool,
) -> (r: CleanupRule)
    ensures
        r.id@ == id@,
        r.title@ == title@,
        r.description@ == description@,
        r.source_category == source_category,
        r.risk_level == risk_level,
        r.cleanup_action == cleanup_action,
        r.default_selected == default_selected,
        r.scope == scope,
        r.delete_contents_only == delete_contents_only,
        r.min_age_minutes == min_age_minutes,
        r.protect_config_references == protect_config_references,
{
    CleanupRule {
        id: string_of(id),
        title: string_of(title),
        description: string_of(description),
        source_category,
        risk_level,
        cleanup_action,
        default_selected,
        scope,
        delete_contents_only,
        min_age_minutes,
        protect_config_references,
    }
}

/// The built-in rules (see `builtin_rule`). No rule that is high-risk, not
/// cleanable, or needs administrator rights is selected by default.
pub fn builtin_rules() -> (r: Vec<CleanupRule>)
    ensures
        are_builtin_rules(r@),
        forall|k: int|
            0 <= k < r@.len() && (#[trigger] r@[k]).default_selected ==> r@[k].risk_level == RiskLevel::Recommended
                && r@[k].cleanup_action == CleanupAction::DirectDelete,
{
    let mut rules: Vec<CleanupRule> = Vec::new();
    rules.push(rule("user-temp", "用户临时文件", "软件运行时留下的临时材料，通常可以安全删除。", SourceCategory::System,
        RiskLevel::Recommended, CleanupAction::DirectDelete, true, RuleScope::UserLocalAppDataRelative(string_of("Temp")), true, 10,
        false));
    rules.push(rule("windows-temp", "Windows 临时文件",
        "系统和安装程序留下的临时材料，需要管理员权限；V0.1 只展示能力说明，不执行提权清理。", SourceCategory::System,
        RiskLevel::Recommended, CleanupAction::RequiresAdmin, false, RuleScope::WindowsRelative(string_of("Temp")), true, 30,
        true));
    rules.push(rule("windows-update-download", "Windows 更新下载缓存",
        "Windows 更新下载后的缓存文件，需要管理员权限；V0.1 只展示能力说明，不执行提权清理。", SourceCategory::System,
        RiskLevel::Recommended, CleanupAction::RequiresAdmin, false,
        RuleScope::WindowsRelative(string_of("SoftwareDistribution\\Download")), true, 60, true));
    rules.push(rule("wechat-data-root", "微信数据根目录",
        "微信数据根目录可能包含聊天数据库、图片、视频和文件。V0.1 不提供整目录删除。", SourceCategory::Wechat,
        RiskLevel::NotCleanable, CleanupAction::ExplainOnly, false,
        RuleScope::UserProfileRelative(string_of("Documents\\WeChat Files")), false, 0, true));
    rules.push(rule("qq-data-root", "QQ 数据根目录",
        "QQ 数据根目录可能包含聊天数据库、图片、视频、群文件和下载文件。V0.1 不提供整目录删除。", SourceCategory::Qq,
        RiskLevel::NotCleanable, CleanupAction::ExplainOnly, false,
        RuleScope::UserProfileRelative(string_of("Documents\\Tencent Files")), false, 0, true));
    rules.push(rule("vscode-cached-vsix", "VS Code 扩展安装包缓存", "VS Code 下载扩展时留下的安装包缓存，可重新下载。",
        SourceCategory::InstallersOldVersions, RiskLevel::Recommended, CleanupAction::DirectDelete, true,
        RuleScope::UserProfileRelative(string_of("AppData\\Roaming\\Code\\CachedExtensionVSIXs")), false, 10, true));
    proof {
        assert(builtin_rule(rules@[0], 0));
        assert(builtin_rule(rules@[1], 1));
        assert(builtin_rule(rules@[2], 2));
        assert(builtin_rule(rules@[3], 3));
        assert(builtin_rule(rules@[4], 4));
        assert(builtin_rule(rules@[5], 5));
    }
    rules
}

/// No built-in rule that is high-risk, not cleanable, or needs
/// administrator rights is selected by default.
pub proof fn law_builtin_rules_preselect_only_safe_deletes(rules: Seq<CleanupRule>, k: int)
    requires
        are_builtin_rules(rules),
        0 <= k < rules.len(),
    ensures
        rules[k].risk_level == RiskLevel::HighRisk ==> !rules[k].default_selected,
        rules[k].risk_level == RiskLevel::NotCleanable ==> !rules[k].default_selected,
        rules[k].cleanup_action == CleanupAction::RequiresAdmin ==> !rules[k].default_selected,
{
    assert(builtin_rule(rules[k], k));
}

/// The chat data roots are never cleaned: they only explain themselves.
pub proof fn law_chat_roots_are_explain_only(rules: Seq<CleanupRule>, k: int)
    requires
        are_builtin_rules(rules),
        0 <= k < rules.len(),
        rules[k].id@ == "wechat-data-root"@ || rules[k].id@ == "qq-data-root"@,
    ensures
        rules[k].risk_level == RiskLevel::NotCleanable,
        rules[k].cleanup_action == CleanupAction::ExplainOnly,
        !rules[k].default_selected,
{
    assert(builtin_rule(rules[k], k));
    reveal_strlit("wechat-data-root");
    reveal_strlit("qq-data-root");
    reveal_strlit("user-temp");
    reveal_strlit("windows-temp");
    reveal_strlit("windows-update-download");
    reveal_strlit("vscode-cached-vsix");
    let id = rules[k].id@;
    if k == 0 || k == 1 || k == 2 || k == 5 {
        assert(id.len() != 16 || id[0] != 'w' || id[1] != 'e');
        assert(id.len() != 12 || id[0] != 'q');
        assert(id != "wechat-data-root"@ && id != "qq-data-root"@);
    }
}

/// Among the built-in rules, only the user's temporary files and the VS Code
/// extension package cache are deleted directly, and only files at least ten
/// minutes old; the WeChat and QQ data folders can never be cleaned and are
/// only explained; rules that need administrator rights do not delete.
pub proof fn law_builtin_rules_delete_only_caches(rules: Seq<CleanupRule>, k: int)
    requires
        are_builtin_rules(rules),
        0 <= k < rules.len(),
    ensures
        rules[k].cleanup_action == CleanupAction::DirectDelete ==> (rules[k].id@ == "user-temp"@ || rules[k].id@
            == "vscode-cached-vsix"@) && rules[k].min_age_minutes >= 10 && rules[k].risk_level
            == RiskLevel::Recommended,
        (rules[k].id@ == "wechat-data-root"@ || rules[k].id@ == "qq-data-root"@) ==> rules[k].risk_level
            == RiskLevel::NotCleanable && rules[k].cleanup_action == CleanupAction::ExplainOnly,
        (rules[k].id@ == "windows-temp"@ || rules[k].id@ == "windows-update-download"@) ==> rules[k].cleanup_action
            == CleanupAction::RequiresAdmin,
{
    assert(builtin_rule(rules[k], k));
    reveal_strlit("user-temp");
    reveal_strlit("windows-temp");
    reveal_strlit("windows-update-download");
    reveal_strlit("wechat-data-root");
    reveal_strlit("qq-data-root");
    reveal_strlit("vscode-cached-vsix");
    assert("user-temp"@[0] != "windows-temp"@[0]);
    assert("user-temp"@[0] != "wechat-data-root"@[0]);
    assert("user-temp"@[0] != "qq-data-root"@[0]);
    assert("user-temp"@[0] != "windows-update-download"@[0]);
    assert("vscode-cached-vsix"@[0] != "windows-temp"@[0]);
    assert("vscode-cached-vsix"@[0] != "wechat-data-root"@[0]);
    assert("vscode-cached-vsix"@[0] != "qq-data-root"@[0]);
    assert("vscode-cached-vsix"@[0] != "windows-update-download"@[0]);
    assert("wechat-data-root"@[1] != "windows-temp"@[1]);
    assert("wechat-data-root"@[1] != "windows-update-download"@[1]);
    assert("qq-data-root"@[0] != "windows-temp"@[0]);
    assert("qq-data-root"@[0] != "windows-update-download"@[0]);
}

} // verus!
