//! Building the C drive scan report from the built-in rules and what was
//! observed at each rule's location.
use vstd::prelude::*;

use crate::models::{CleanupAction, DriveSummary, RiskLevel, ScanItem, ScanReport};
use crate::paths::{resolve_rule_path, rule_path, ScanRoots};
use crate::rules::{are_builtin_rules, builtin_rule, builtin_rules, copy_rule, CleanupRule};
use crate::text::{chars_eq, concat_str, string_of, to_chars};
use crate::v2::path_safety::views;

verus! {

/// What was observed at a rule's location.
#[derive(Debug, Clone, Copy, PartialEq, Eq)]
pub struct PathProbe {
    pub exists: bool,
    pub estimated_bytes: u64,
    /// A tool's configuration names the location.
    pub config_referenced: bool,
    /// A running program uses the location.
    pub process_referenced: bool,
}

/// The hint shown in place of a rule's path.
pub open spec fn visible_hint_of(rule_id: Seq<char>) -> Seq<char> {
    if rule_id == "user-temp"@ {
        "当前用户临时目录"@
    } else if rule_id == "windows-temp"@ {
        "Windows 临时目录"@
    } else if rule_id == "windows-update-download"@ {
        "Windows 更新下载缓存"@
    } else if rule_id == "wechat-data-root"@ {
        "微信用户数据根目录"@
    } else if rule_id == "qq-data-root"@ {
        "QQ 用户数据根目录"@
    } else if rule_id == "vscode-cached-vsix"@ {
        "VS Code 扩展安装包缓存"@
    } else {
        "C 盘应用数据目录"@
    }
}

/// The hint shown in place of a rule's path (see `visible_hint_of`).
pub fn user_visible_hint(rule_id: &str) -> (r: String)
    ensures
        r@ == visible_hint_of(rule_id@),
{
    let id = to_chars(rule_id);
    if chars_eq(&id, &to_chars("user-temp")) {
        string_of("当前用户临时目录")
    } else if chars_eq(&id, &to_chars("windows-temp")) {
        string_of("Windows 临时目录")
    } else if chars_eq(&id, &to_chars("windows-update-download")) {
        string_of("Windows 更新下载缓存")
    } else if chars_eq(&id, &to_chars("wechat-data-root")) {
        string_of("微信用户数据根目录")
    } else if chars_eq(&id, &to_chars("qq-data-root")) {
        string_of("QQ 用户数据根目录")
    } else if chars_eq(&id, &to_chars("vscode-cached-vsix")) {
        string_of("VS Code 扩展安装包缓存")
    } else {
        string_of("C 盘应用数据目录")
    }
}

/// `item` is the scan item of `rule` at `technical_path`: a configuration
/// reference (when the rule heeds them) or else a running program blocks
/// the item; otherwise it keeps the rule's risk, action and selection.
pub open spec fn item_of_rule(item: ScanItem, rule: CleanupRule, technical_path: Seq<char>, probe: PathProbe) -> bool {
    let hit = "规则命中："@ + rule.title@;
    &&& item.id == rule.id
    &&& item.title == rule.title
    &&& item.description == rule.description
    &&& item.source_category == rule.source_category
    &&& item.estimated_bytes == probe.estimated_bytes
    &&& item.user_visible_path_hint@ == visible_hint_of(rule.id@)
    &&& item.technical_path matches Some(p) && p@ == technical_path
    &&& if rule.protect_config_references && probe.config_referenced {
        &&& item.risk_level == RiskLevel::NotCleanable
        &&& item.cleanup_action == CleanupAction::BlockedByConfigReference
        &&& !item.default_selected
        &&& views(item.reasons@) == seq![hit, "这个位置正在被工具配置引用。"@]
        &&& views(item.warnings@) == seq!["清理可能导致工具启动失败，已自动跳过。"@]
    } else if probe.process_referenced {
        &&& item.risk_level == RiskLevel::NotCleanable
        &&& item.cleanup_action == CleanupAction::BlockedByProcess
        &&& !item.default_selected
        &&& views(item.reasons@) == seq![hit, "这个位置正在被运行中的程序使用。"@]
        &&& views(item.warnings@) == seq!["请关闭相关软件后重新扫描。"@]
    } else {
        &&& item.risk_level == rule.risk_level
        &&& item.cleanup_action == rule.cleanup_action
        &&& item.default_selected == rule.default_selected
        &&& views(item.reasons@) == seq![hit]
        &&& item.warnings@.len() == 0
    }
}

/// The scan item of a rule at its location (see `item_of_rule`).
pub fn build_item(rule: CleanupRule, technical_path: String, probe: PathProbe) -> (r: ScanItem)
    ensures
        item_of_rule(r, rule, technical_path@, probe),
{
    let mut reasons: Vec<String> = Vec::new();
    reasons.push(concat_str("规则命中：", rule.title.as_str()));
    let mut warnings: Vec<String> = Vec::new();
    let mut risk_level = rule.risk_level;
    let mut cleanup_action = rule.cleanup_action;
    let mut default_selected = rule.default_selected;
    if rule.protect_config_references && probe.config_referenced {
        risk_level = RiskLevel::NotCleanable;
        cleanup_action = CleanupAction::BlockedByConfigReference;
        default_selected = false;
        reasons.push(string_of("这个位置正在被工具配置引用。"));
        warnings.push(string_of("清理可能导致工具启动失败，已自动跳过。"));
    } else if probe.process_referenced {
        risk_level = RiskLevel::NotCleanable;
        cleanup_action = CleanupAction::BlockedByProcess;
        default_selected = false;
        reasons.push(string_of("这个位置正在被运行中的程序使用。"));
        warnings.push(string_of("请关闭相关软件后重新扫描。"));
    }
    let hint = user_visible_hint(rule.id.as_str());
    let item = ScanItem {
        id: rule.id,
        title: rule.title,
        description: rule.description,
        source_category: rule.source_category,
        risk_level,
        cleanup_action,
        estimated_bytes: probe.estimated_bytes,
        default_selected,
        user_visible_path_hint: hint,
        technical_path: Some(technical_path),
        reasons,
        warnings,
    };
    proof {
        assert(views(item.reasons@) =~= if rule.protect_config_references && probe.config_referenced {
            seq!["规则命中："@ + rule.title@, "这个位置正在被工具配置引用。"@]
        } else if probe.process_referenced {
            seq!["规则命中："@ + rule.title@, "这个位置正在被运行中的程序使用。"@]
        } else {
            seq!["规则命中："@ + rule.title@]
        });
        if (rule.protect_config_references && probe.config_referenced) || probe.process_referenced {
            assert(views(item.warnings@) =~= seq![item.warnings@[0]@]);
        }
    }
    item
}

/// A rule's location is left out of the report when nothing is there.
pub open spec fn probe_keeps(probe: PathProbe) -> bool {
    !(probe.estimated_bytes == 0 && !probe.exists)
}

/// The indices among the first `n` probes that keep their rule.
pub open spec fn kept_indices(probes: Seq<PathProbe>, n: int) -> Seq<int>
    decreases n,
{
    if n <= 0 {
        Seq::empty()
    } else if probe_keeps(probes[n - 1]) {
        kept_indices(probes, n - 1).push(n - 1)
    } else {
        kept_indices(probes, n - 1)
    }
}

/// The report lists, in rule order, the item of each built-in rule whose
/// probe keeps it.
pub open spec fn report_of_rules(report: ScanReport, rules: Seq<CleanupRule>, roots: ScanRoots, probes: Seq<PathProbe>) -> bool {
    let kept = kept_indices(probes, rules.len() as int);
    &&& report.items@.len() == kept.len()
    &&& forall|j: int|
        0 <= j < kept.len() ==> #[trigger] item_of_rule(
            report.items@[j],
            rules[kept[j]],
            rule_path(rules[kept[j]], roots),
            probes[kept[j]],
        )
}

/// Some arrangement of the built-in rules gives the report.
pub open spec fn report_of_builtin_rules(report: ScanReport, roots: ScanRoots, probes: Seq<PathProbe>) -> bool {
    exists|rules: Seq<CleanupRule>| #[trigger] are_builtin_rules(rules) && report_of_rules(report, rules, roots, probes)
}

/// The scan report: one item for each built-in rule whose location holds
/// something (see `report_of_builtin_rules`); `probes[k]` is what was
/// observed at rule `k`'s location.
pub fn scan_with_roots(
    roots: &ScanRoots,
    drive_summary: DriveSummary,
    probes: &Vec<PathProbe>,
    scan_started_at: String,
    scan_finished_at: String,
) -> (r: ScanReport)
    requires
        probes@.len() == 6,
    ensures
        report_of_builtin_rules(r, *roots, probes@),
        r.drive_summary == drive_summary,
        !r.partial,
        r.scan_started_at == scan_started_at,
        r.scan_finished_at == scan_finished_at,
{
    let rules = builtin_rules();
    let ghost rv = rules@;
    let mut items: Vec<ScanItem> = Vec::new();
    let mut k: usize = 0;
    while k < 6
        invariant
            k <= 6,
            probes@.len() == 6,
            rules@ == rv,
            are_builtin_rules(rv),
            items@.len() == kept_indices(probes@, k as int).len(),
            forall|j: int|
                0 <= j < items@.len() ==> #[trigger] item_of_rule(
                    items@[j],
                    rv[kept_indices(probes@, k as int)[j]],
                    rule_path(rv[kept_indices(probes@, k as int)[j]], *roots),
                    probes@[kept_indices(probes@, k as int)[j]],
                ),
        decreases 6 - k,
    {
        let probe = probes[k];
        if !(probe.estimated_bytes == 0 && !probe.exists) {
            let path = resolve_rule_path(&rules[k], roots);
            let rule_copy = copy_rule(&rules[k]);
            let item = build_item(rule_copy, path, probe);
            let ghost before = items@;
            items.push(item);
            proof {
                assert(kept_indices(probes@, k + 1) == kept_indices(probes@, k as int).push(k as int));
                assert forall|j: int| 0 <= j < items@.len() implies #[trigger] item_of_rule(
                    items@[j],
                    rv[kept_indices(probes@, k + 1)[j]],
                    rule_path(rv[kept_indices(probes@, k + 1)[j]], *roots),
                    probes@[kept_indices(probes@, k + 1)[j]],
                ) by {
                    if j < before.len() {
                        assert(items@[j] == before[j]);
                        assert(kept_indices(probes@, k + 1)[j] == kept_indices(probes@, k as int)[j]);
                    }
                }
            }
        } else {
            proof {
                assert(kept_indices(probes@, k + 1) == kept_indices(probes@, k as int));
            }
        }
        k += 1;
    }
    let report = ScanReport {
        drive_summary,
        items,
        partial: false,
        scan_started_at,
        scan_finished_at,
    };
    proof {
        assert(report_of_rules(report, rv, *roots, probes@));
        assert(are_builtin_rules(rv));
    }
    report
}

} // verus!
