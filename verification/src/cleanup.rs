//! C drive cleanup: the checks a selected item must pass before its
//! location is moved to the recycle bin, and the result and history of a
//! cleanup.
use vstd::prelude::*;

use crate::errors::{error_text, CleanerError};
use crate::ids::new_identifier;
use crate::models::{CleanupAction, CleanupItemResult, CleanupResult, CleanupSelection, RiskLevel, ScanItem};
use crate::paths::{
    ensure_c_drive_path, is_c_drive, lies_under, resolve_rule_path, root_for_rule, rule_path, rule_root, ScanRoots,
};
use crate::rules::{are_builtin_rules, builtin_rules, CleanupRule};
use crate::text::{chars_eq, concat_str, string_of, to_chars};
use crate::v2::models::{HistoryEntry, OperationModule};
use crate::v2::path_safety::{is_sep, views};
use crate::v2::recycle_bin::{RecycleBin, RecycleBinError};

verus! {

/// A selected item is high-risk.
pub open spec fn selects_high_risk(selection: CleanupSelection, items: Seq<ScanItem>) -> bool {
    exists|k: int|
        0 <= k < items.len() && #[trigger] items[k].risk_level == RiskLevel::HighRisk && views(
            selection.selected_item_ids@,
        ).contains(items[k].id@)
}

/// `Err` when a high-risk item is selected without the second confirmation.
pub fn validate_high_risk_confirmation(selection: &CleanupSelection, items: &Vec<ScanItem>) -> (r: Result<(), String>)
    ensures
        (selects_high_risk(*selection, items@) && !selection.high_risk_confirmed) ==> (r matches Err(m) && m@
            == "高风险项目需要二次确认。"@),
        !(selects_high_risk(*selection, items@) && !selection.high_risk_confirmed) ==> r is Ok,
{
    if selection.high_risk_confirmed {
        return Ok(());
    }
    let mut k: usize = 0;
    while k < items.len()
        invariant
            k <= items@.len(),
            !selection.high_risk_confirmed,
            forall|j: int|
                0 <= j < k ==> !(#[trigger] items@[j].risk_level == RiskLevel::HighRisk && views(
                    selection.selected_item_ids@,
                ).contains(items@[j].id@)),
        decreases items@.len() - k,
    {
        if items[k].risk_level == RiskLevel::HighRisk && crate::v2::duplicate_run::contains_text(
            &selection.selected_item_ids,
            &items[k].id,
        ) {
            proof {
                assert(items@[k as int].risk_level == RiskLevel::HighRisk && views(selection.selected_item_ids@).contains(
                    items@[k as int].id@,
                ));
                assert(selects_high_risk(*selection, items@));
            }
            return Err(string_of("高风险项目需要二次确认。"));
        }
        k += 1;
    }
    Ok(())
}

/// The pieces of `p` between separators (`\\` or `/`), empty pieces
/// included.
pub open spec fn path_pieces(p: Seq<char>) -> Seq<Seq<char>>
    decreases p.len(),
{
    if p.len() == 0 {
        seq![Seq::empty()]
    } else {
        let init = path_pieces(p.drop_last());
        if is_sep(p.last()) {
            init.push(Seq::empty())
        } else {
            init.update(init.len() - 1, init.last().push(p.last()))
        }
    }
}

/// The pieces that are steps of a path: neither empty nor `.`.
pub open spec fn location_steps(pieces: Seq<Seq<char>>) -> Seq<Seq<char>>
    decreases pieces.len(),
{
    if pieces.len() == 0 {
        Seq::empty()
    } else {
        let init = location_steps(pieces.drop_last());
        let x = pieces.last();
        if x.len() == 0 || x == seq!['.'] {
            init
        } else {
            init.push(x)
        }
    }
}

/// How a path begins: with two separators (a network or device path), with
/// one (a rooted path), or with none.
pub open spec fn leading_separators(p: Seq<char>) -> int {
    if p.len() >= 2 && is_sep(p[0]) && is_sep(p[1]) {
        2
    } else if p.len() >= 1 && is_sep(p[0]) {
        1
    } else {
        0
    }
}

/// Two paths name the same location when they begin alike and have the same
/// steps, `\\` and `/` being both separators and repeated separators,
/// trailing separators and `.` steps not counting, as paths compare by their
/// components.
pub open spec fn same_location(a: Seq<char>, b: Seq<char>) -> bool {
    leading_separators(a) == leading_separators(b) && location_steps(path_pieces(a)) == location_steps(
        path_pieces(b),
    )
}

fn step_kept(x: &Vec<char>) -> (r: bool)
    ensures
        r == !(x@.len() == 0 || x@ == seq!['.']),
{
    if x.len() == 0 {
        return false;
    }
    if x.len() == 1 && x[0] == '.' {
        assert(x@ =~= seq!['.']);
        return false;
    }
    proof {
        if x@ == seq!['.'] {
            assert(x@[0] == '.');
        }
    }
    true
}

fn location_steps_of(p: &str) -> (r: Vec<Vec<char>>)
    ensures
        r@.len() == location_steps(path_pieces(p@)).len(),
        forall|k: int| 0 <= k < r@.len() ==> (#[trigger] r@[k])@ == location_steps(path_pieces(p@))[k],
{
    let chars = to_chars(p);
    let mut steps: Vec<Vec<char>> = Vec::new();
    let mut cur: Vec<char> = Vec::new();
    let mut i: usize = 0;
    assert(chars@.take(0) =~= Seq::<char>::empty());
    while i < chars.len()
        invariant
            chars@ == p@,
            i <= chars@.len(),
            path_pieces(chars@.take(i as int)).len() >= 1,
            steps@.len() == location_steps(path_pieces(chars@.take(i as int)).drop_last()).len(),
            forall|k: int|
                0 <= k < steps@.len() ==> (#[trigger] steps@[k])@ == location_steps(
                    path_pieces(chars@.take(i as int)).drop_last(),
                )[k],
            cur@ == path_pieces(chars@.take(i as int)).last(),
        decreases chars@.len() - i,
    {
        let c = chars[i];
        let ghost before = path_pieces(chars@.take(i as int));
        proof {
            assert(chars@.take(i + 1).drop_last() =~= chars@.take(i as int));
            assert(chars@.take(i + 1).last() == c);
        }
        if c == '\\' || c == '/' {
            proof {
                let after = before.push(Seq::<char>::empty());
                assert(after.drop_last() =~= before);
                assert(before.drop_last().push(before.last()) =~= before);
            }
            if step_kept(&cur) {
                steps.push(cur);
            }
            cur = Vec::new();
        } else {
            proof {
                let after = before.update(before.len() - 1, before.last().push(c));
                assert(after.drop_last() =~= before.drop_last());
            }
            cur.push(c);
        }
        i += 1;
    }
    proof {
        let all = path_pieces(chars@.take(i as int));
        assert(all.drop_last().push(all.last()) =~= all);
        assert(chars@.take(i as int) =~= p@);
    }
    if step_kept(&cur) {
        steps.push(cur);
    }
    steps
}

/// Whether two paths name the same location (see `same_location`).
pub fn same_location_exec(a: &str, b: &str) -> (r: bool)
    ensures
        r == same_location(a@, b@),
{
    let ac = to_chars(a);
    let bc = to_chars(b);
    let lead_a: u8 = if ac.len() >= 2 && (ac[0] == '\\' || ac[0] == '/') && (ac[1] == '\\' || ac[1] == '/') {
        2
    } else if ac.len() >= 1 && (ac[0] == '\\' || ac[0] == '/') {
        1
    } else {
        0
    };
    let lead_b: u8 = if bc.len() >= 2 && (bc[0] == '\\' || bc[0] == '/') && (bc[1] == '\\' || bc[1] == '/') {
        2
    } else if bc.len() >= 1 && (bc[0] == '\\' || bc[0] == '/') {
        1
    } else {
        0
    };
    if lead_a != lead_b {
        return false;
    }
    let sa = location_steps_of(a);
    let sb = location_steps_of(b);
    let ghost ta = location_steps(path_pieces(a@));
    let ghost tb = location_steps(path_pieces(b@));
    if sa.len() != sb.len() {
        return false;
    }
    let mut k: usize = 0;
    while k < sa.len()
        invariant
            k <= sa@.len(),
            ta == location_steps(path_pieces(a@)),
            tb == location_steps(path_pieces(b@)),
            sa@.len() == sb@.len(),
            sa@.len() == ta.len(),
            sb@.len() == tb.len(),
            forall|j: int| 0 <= j < sa@.len() ==> (#[trigger] sa@[j])@ == ta[j],
            forall|j: int| 0 <= j < sb@.len() ==> (#[trigger] sb@[j])@ == tb[j],
            forall|j: int| 0 <= j < k ==> ta[j] == tb[j],
        decreases sa@.len() - k,
    {
        if !chars_eq(&sa[k], &sb[k]) {
            proof {
                assert(sa@[k as int]@ == ta[k as int]);
                assert(sb@[k as int]@ == tb[k as int]);
            }
            return false;
        }
        k += 1;
    }
    assert(ta =~= tb);
    true
}

/// A selected item that passed the checks that need no look at the disk,
/// and the rule that applies to it.
#[derive(Debug, Clone, PartialEq, Eq)]
pub struct CheckedItem {
    pub item_id: String,
    pub title: String,
    pub expected_path: String,
    pub expected_root: String,
    pub contents_only: bool,
    pub min_age_minutes: u64,
    pub protect_config_references: bool,
}

/// One step of a cleanup: an item already decided, or one whose location
/// must now be looked at.
#[derive(Debug, Clone, PartialEq, Eq)]
pub enum CleanupStep {
    Done(CleanupItemResult),
    Check(CheckedItem),
}

/// `r` is a result with this id, status, no freed bytes and this message.
pub open spec fn result_is(r: CleanupItemResult, item_id: Seq<char>, status: Seq<char>, message: Seq<char>) -> bool {
    r.item_id@ == item_id && r.status@ == status && r.freed_bytes == 0 && r.message@ == message
}

fn item_result(item_id: &str, status: &str, message: String) -> (r: CleanupItemResult)
    ensures
        result_is(r, item_id@, status@, message@),
{
    CleanupItemResult { item_id: string_of(item_id), status: string_of(status), freed_bytes: 0, message }
}

/// The first item with the id, if any.
pub open spec fn first_item_index(items: Seq<ScanItem>, id: Seq<char>, n: int) -> int
    decreases n,
{
    if n <= 0 {
        -1
    } else if first_item_index(items, id, n - 1) >= 0 {
        first_item_index(items, id, n - 1)
    } else if items[n - 1].id@ == id {
        n - 1
    } else {
        -1
    }
}

fn find_item(items: &Vec<ScanItem>, id: &String) -> (r: Option<usize>)
    ensures
        match r {
            Some(k) => k < items@.len() && first_item_index(items@, id@, items@.len() as int) == k,
            None => first_item_index(items@, id@, items@.len() as int) == -1,
        },
{
    let mut k: usize = 0;
    while k < items.len()
        invariant
            k <= items@.len(),
            first_item_index(items@, id@, k as int) == -1,
        decreases items@.len() - k,
    {
        if items[k].id == *id {
            proof {
                lemma_first_item_stays(items@, id@, k + 1, items@.len() as int);
            }
            return Some(k);
        }
        k += 1;
    }
    None
}

proof fn lemma_first_item_stays(items: Seq<ScanItem>, id: Seq<char>, a: int, b: int)
    requires
        0 < a <= b,
        first_item_index(items, id, a) >= 0,
    ensures
        first_item_index(items, id, b) == first_item_index(items, id, a),
    decreases b - a,
{
    if a < b {
        lemma_first_item_stays(items, id, a, b - 1);
    }
}

/// The step of one selected item (its id given), checked without looking at
/// the disk, in this order: the item must still be in the scan, have a
/// built-in rule, be cleanable, be a direct delete for both item and rule,
/// carry its path, have the path its rule gives, and lie on the C drive.
pub open spec fn step_for(
    id: Seq<char>,
    items: Seq<ScanItem>,
    rules: Seq<CleanupRule>,
    roots: ScanRoots,
    step: CleanupStep,
) -> bool {
    let k = first_item_index(items, id, items.len() as int);
    if k < 0 {
        step matches CleanupStep::Done(r) && result_is(r, id, "skipped"@, id + " 已跳过：清理前复查未再命中该项目。"@)
    } else {
        let item = items[k];
        let title = item.title@;
        let q = first_rule_index(rules, item.id@, rules.len() as int);
        if q < 0 {
            step matches CleanupStep::Done(r) && result_is(r, item.id@, "failed"@, title + " 清理失败：找不到对应安全规则。"@)
        } else {
            let rule = rules[q];
            if item.risk_level == RiskLevel::NotCleanable {
                step matches CleanupStep::Done(r) && result_is(r, item.id@, "skipped"@, title + " 已跳过：安全规则不允许清理。"@)
            } else if item.cleanup_action != CleanupAction::DirectDelete || rule.cleanup_action != CleanupAction::DirectDelete {
                step matches CleanupStep::Done(r) && result_is(r, item.id@, "skipped"@, title + " 已跳过：需要其他处理方式。"@)
            } else {
                match item.technical_path {
                    None => step matches CleanupStep::Done(r) && result_is(
                        r,
                        item.id@,
                        "failed"@,
                        title + " 清理失败：缺少路径信息。"@,
                    ),
                    Some(p) => if !same_location(p@, rule_path(rule, roots)) {
                        step matches CleanupStep::Done(r) && result_is(
                            r,
                            item.id@,
                            "failed"@,
                            title + " 清理失败：扫描路径和规则路径不一致。"@,
                        )
                    } else if !is_c_drive(rule_root(rule, roots)) || !is_c_drive(rule_path(rule, roots)) {
                        step matches CleanupStep::Done(r) && result_is(
                            r,
                            item.id@,
                            "failed"@,
                            title + " 清理失败：路径不在 C 盘范围内："@ + "path is outside the C drive"@ + "。"@,
                        )
                    } else {
                        step matches CleanupStep::Check(c) && c.item_id@ == item.id@ && c.title@ == title
                            && c.expected_path@ == rule_path(rule, roots) && c.expected_root@ == rule_root(rule, roots)
                            && c.contents_only == rule.delete_contents_only && c.min_age_minutes == rule.min_age_minutes
                            && c.protect_config_references == rule.protect_config_references
                    },
                }
            }
        }
    }
}

/// The first rule with the id, if any.
pub open spec fn first_rule_index(rules: Seq<CleanupRule>, id: Seq<char>, n: int) -> int
    decreases n,
{
    if n <= 0 {
        -1
    } else if first_rule_index(rules, id, n - 1) >= 0 {
        first_rule_index(rules, id, n - 1)
    } else if rules[n - 1].id@ == id {
        n - 1
    } else {
        -1
    }
}

proof fn lemma_first_rule_stays(rules: Seq<CleanupRule>, id: Seq<char>, a: int, b: int)
    requires
        0 < a <= b,
        first_rule_index(rules, id, a) >= 0,
    ensures
        first_rule_index(rules, id, b) == first_rule_index(rules, id, a),
    decreases b - a,
{
    if a < b {
        lemma_first_rule_stays(rules, id, a, b - 1);
    }
}

fn find_rule(rules: &Vec<CleanupRule>, id: &String) -> (r: Option<usize>)
    ensures
        match r {
            Some(k) => k < rules@.len() && first_rule_index(rules@, id@, rules@.len() as int) == k,
            None => first_rule_index(rules@, id@, rules@.len() as int) == -1,
        },
{
    let mut k: usize = 0;
    while k < rules.len()
        invariant
            k <= rules@.len(),
            first_rule_index(rules@, id@, k as int) == -1,
        decreases rules@.len() - k,
    {
        if rules[k].id == *id {
            proof {
                lemma_first_rule_stays(rules@, id@, k + 1, rules@.len() as int);
            }
            return Some(k);
        }
        k += 1;
    }
    None
}

/// The step of one selected item (see `step_for`).
pub fn plan_item(id: &String, items: &Vec<ScanItem>, rules: &Vec<CleanupRule>, roots: &ScanRoots) -> (r: CleanupStep)
    ensures
        step_for(id@, items@, rules@, *roots, r),
{
    let k = match find_item(items, id) {
        None => {
            let message = concat_str(id.as_str(), " 已跳过：清理前复查未再命中该项目。");
            return CleanupStep::Done(item_result(id.as_str(), "skipped", message));
        },
        Some(k) => k,
    };
    let item = &items[k];
    let title = item.title.as_str();
    let q = match find_rule(rules, &item.id) {
        None => {
            return CleanupStep::Done(item_result(item.id.as_str(), "failed", concat_str(title, " 清理失败：找不到对应安全规则。")));
        },
        Some(q) => q,
    };
    let rule = &rules[q];
    if item.risk_level == RiskLevel::NotCleanable {
        return CleanupStep::Done(item_result(item.id.as_str(), "skipped", concat_str(title, " 已跳过：安全规则不允许清理。")));
    }
    if item.cleanup_action != CleanupAction::DirectDelete || rule.cleanup_action != CleanupAction::DirectDelete {
        return CleanupStep::Done(item_result(item.id.as_str(), "skipped", concat_str(title, " 已跳过：需要其他处理方式。")));
    }
    let path = match &item.technical_path {
        None => {
            return CleanupStep::Done(item_result(item.id.as_str(), "failed", concat_str(title, " 清理失败：缺少路径信息。")));
        },
        Some(p) => p,
    };
    let expected_path = resolve_rule_path(rule, roots);
    let expected_root = root_for_rule(rule, roots);
    if !same_location_exec(path.as_str(), expected_path.as_str()) {
        return CleanupStep::Done(
            item_result(item.id.as_str(), "failed", concat_str(title, " 清理失败：扫描路径和规则路径不一致。")),
        );
    }
    let in_scope = match ensure_c_drive_path(expected_root.as_str()) {
        Ok(()) => ensure_c_drive_path(expected_path.as_str()),
        Err(e) => Err(e),
    };
    match in_scope {
        Err(error) => {
            let m1 = concat_str(title, " 清理失败：路径不在 C 盘范围内：");
            let m2 = concat_str(m1.as_str(), error.message().as_str());
            return CleanupStep::Done(item_result(item.id.as_str(), "failed", concat_str(m2.as_str(), "。")));
        },
        Ok(()) => {},
    }
    CleanupStep::Check(
        CheckedItem {
            item_id: item.id.clone(),
            title: item.title.clone(),
            expected_path,
            expected_root,
            contents_only: rule.delete_contents_only,
            min_age_minutes: rule.min_age_minutes,
            protect_config_references: rule.protect_config_references,
        },
    )
}

/// The steps of a selection: each selected id once, in the order first
/// given, planned by `step_for` against the built-in rules.
pub open spec fn planned_steps(steps: Seq<CleanupStep>, selection: CleanupSelection, items: Seq<ScanItem>, roots: ScanRoots) -> bool {
    exists|rules: Seq<CleanupRule>| #[trigger] are_builtin_rules(rules) && steps_follow(steps, selection, items, rules, roots)
}

/// Step `j` is the step of the `j`-th distinct selected id.
pub open spec fn steps_follow(
    steps: Seq<CleanupStep>,
    selection: CleanupSelection,
    items: Seq<ScanItem>,
    rules: Seq<CleanupRule>,
    roots: ScanRoots,
) -> bool {
    let ids = crate::v2::duplicate_run::merged_paths(Seq::empty(), views(selection.selected_item_ids@));
    &&& steps.len() == ids.len()
    &&& forall|j: int| 0 <= j < ids.len() ==> #[trigger] step_for(ids[j], items, rules, roots, steps[j])
}

/// Plans a cleanup: `Err` when a high-risk item lacks its confirmation (see
/// `validate_high_risk_confirmation`), else one step per distinct selected
/// id (see `planned_steps`).
pub fn plan_selected_cleanup(selection: &CleanupSelection, items: &Vec<ScanItem>, roots: &ScanRoots) -> (r: Result<Vec<CleanupStep>, String>)
    ensures
        (selects_high_risk(*selection, items@) && !selection.high_risk_confirmed) ==> (r matches Err(m) && m@
            == "高风险项目需要二次确认。"@),
        !(selects_high_risk(*selection, items@) && !selection.high_risk_confirmed) ==> (r matches Ok(steps)
            && planned_steps(steps@, *selection, items@, *roots)),
{
    validate_high_risk_confirmation(selection, items)?;
    let rules = builtin_rules();
    let mut seen: Vec<String> = Vec::new();
    let mut steps: Vec<CleanupStep> = Vec::new();
    let ghost all = views(selection.selected_item_ids@);
    let mut i: usize = 0;
    while i < selection.selected_item_ids.len()
        invariant
            i <= selection.selected_item_ids@.len(),
            all == views(selection.selected_item_ids@),
            are_builtin_rules(rules@),
            views(seen@) == crate::v2::duplicate_run::merged_paths(Seq::empty(), all.take(i as int)),
            steps@.len() == seen@.len(),
            forall|j: int| 0 <= j < seen@.len() ==> #[trigger] step_for(views(seen@)[j], items@, rules@, *roots, steps@[j]),
        decreases selection.selected_item_ids@.len() - i,
    {
        proof {
            assert(all.take(i + 1).drop_last() =~= all.take(i as int));
            assert(all.take(i + 1).last() == selection.selected_item_ids@[i as int]@);
        }
        let id = &selection.selected_item_ids[i];
        if !crate::v2::duplicate_run::contains_text(&seen, id) {
            let step = plan_item(id, items, &rules, roots);
            let ghost before_seen = views(seen@);
            let ghost before_steps = steps@;
            seen.push(id.clone());
            steps.push(step);
            proof {
                assert(views(seen@) =~= before_seen.push(id@));
                assert forall|j: int| 0 <= j < seen@.len() implies #[trigger] step_for(views(seen@)[j], items@, rules@, *roots, steps@[j]) by {
                    if j < before_steps.len() {
                        assert(views(seen@)[j] == before_seen[j]);
                        assert(steps@[j] == before_steps[j]);
                    }
                }
            }
        }
        i += 1;
    }
    proof {
        assert(all.take(all.len() as int) =~= all);
        assert(steps_follow(steps@, *selection, items@, rules@, *roots));
    }
    Ok(steps)
}

/// What was observed at a checked item's location.
#[derive(Debug)]
pub struct CheckObservation {
    pub exists: bool,
    /// Whether the canonical location lies under the canonical rule folder
    /// (see `ensure_under_root`), or why that could not be decided.
    pub root_check: Result<(), CleanerError>,
    pub config_referenced: bool,
    pub process_referenced: bool,
    pub old_enough: bool,
}

/// The result of a checked item that must not be cleaned, in this order:
/// gone, outside its folder, referenced by a configuration (when the rule
/// heeds that), used by a running program, or changed too recently; none
/// when it may be moved to the recycle bin.
pub open spec fn check_outcome(check: CheckedItem, obs: CheckObservation, r: Option<CleanupItemResult>) -> bool {
    let t = check.title@;
    let id = check.item_id@;
    if !obs.exists {
        r matches Some(x) && result_is(x, id, "skipped"@, t + " 已跳过：路径已不存在。"@)
    } else if obs.root_check is Err {
        r matches Some(x) && result_is(x, id, "failed"@, t + " 清理失败：路径安全校验未通过："@ + error_text(obs.root_check->Err_0) + "。"@)
    } else if check.protect_config_references && obs.config_referenced {
        r matches Some(x) && result_is(x, id, "skipped"@, t + " 已跳过：清理前复查发现仍被配置引用。"@)
    } else if obs.process_referenced {
        r matches Some(x) && result_is(x, id, "skipped"@, t + " 已跳过：清理前复查发现仍被运行中的程序使用。"@)
    } else if !obs.old_enough {
        r matches Some(x) && result_is(x, id, "skipped"@, t + " 已跳过：最近仍有修改，暂不清理。"@)
    } else {
        r is None
    }
}

/// The result of a checked item that must not be cleaned, or none when it
/// may be moved to the recycle bin (see `check_outcome`).
pub fn decide_checked_item(check: &CheckedItem, obs: &CheckObservation) -> (r: Option<CleanupItemResult>)
    ensures
        check_outcome(*check, *obs, r),
{
    let id = check.item_id.as_str();
    let title = check.title.as_str();
    if !obs.exists {
        return Some(item_result(id, "skipped", concat_str(title, " 已跳过：路径已不存在。")));
    }
    match &obs.root_check {
        Err(e) => {
            let m1 = concat_str(title, " 清理失败：路径安全校验未通过：");
            let m2 = concat_str(m1.as_str(), e.message().as_str());
            return Some(item_result(id, "failed", concat_str(m2.as_str(), "。")));
        },
        Ok(()) => {},
    }
    if check.protect_config_references && obs.config_referenced {
        return Some(item_result(id, "skipped", concat_str(title, " 已跳过：清理前复查发现仍被配置引用。")));
    }
    if obs.process_referenced {
        return Some(item_result(id, "skipped", concat_str(title, " 已跳过：清理前复查发现仍被运行中的程序使用。")));
    }
    if !obs.old_enough {
        return Some(item_result(id, "skipped", concat_str(title, " 已跳过：最近仍有修改，暂不清理。")));
    }
    None
}

/// The result of moving a checked item's location to the recycle bin:
/// `deleted` with the freed bytes, or `failed`.
pub fn recycled_item_result(check: &CheckedItem, outcome: &Result<u64, CleanerError>) -> (r: CleanupItemResult)
    ensures
        r.item_id@ == check.item_id@,
        outcome matches Ok(freed) ==> (r.status@ == "deleted"@ && r.freed_bytes == freed && r.message@ == check.title@
            + " 已移入回收站。"@),
        outcome is Err ==> result_is(r, check.item_id@, "failed"@, check.title@ + " 移入回收站失败，本项未清理。"@),
        recycled_result_is(*check, *outcome, r),
{
    match outcome {
        Ok(freed) => CleanupItemResult {
            item_id: check.item_id.clone(),
            status: string_of("deleted"),
            freed_bytes: *freed,
            message: concat_str(check.title.as_str(), " 已移入回收站。"),
        },
        Err(_) => item_result(check.item_id.as_str(), "failed", concat_str(check.title.as_str(), " 移入回收站失败，本项未清理。")),
    }
}

/// A location is old enough to clean when no rule age applies, or its
/// newest change (nanoseconds since the epoch) is no later than `now` less
/// the rule's age, the cut-off never earlier than the epoch; an unknown
/// change time is never old enough.
pub open spec fn old_enough(min_age_minutes: u64, newest_modified_nanos: Option<u128>, now_nanos: u128) -> bool {
    if min_age_minutes == 0 {
        true
    } else {
        let age: int = min_age_minutes * 60000000000;
        let cutoff: int = if now_nanos >= age {
            now_nanos - age
        } else {
            0
        };
        match newest_modified_nanos {
            Some(m) => m <= cutoff,
            None => false,
        }
    }
}

/// Whether a location is old enough to clean (see `old_enough`).
pub fn path_is_old_enough(min_age_minutes: u64, newest_modified_nanos: Option<u128>, now_nanos: u128) -> (r: bool)
    ensures
        r == old_enough(min_age_minutes, newest_modified_nanos, now_nanos),
{
    if min_age_minutes == 0 {
        return true;
    }
    let age: u128 = (min_age_minutes as u128) * 60000000000;
    proof {
        assert((min_age_minutes as u128) * 60000000000 <= u64::MAX * 60000000000) by (nonlinear_arith)
            requires
                min_age_minutes <= u64::MAX,
        ;
    }
    let cutoff: u128 = if now_nanos >= age {
        now_nanos - age
    } else {
        0
    };
    match newest_modified_nanos {
        Some(m) => m <= cutoff,
        None => false,
    }
}

/// Sum of the freed bytes of the results.
pub open spec fn freed_sum(results: Seq<CleanupItemResult>) -> int
    decreases results.len(),
{
    if results.len() == 0 {
        0
    } else {
        freed_sum(results.drop_last()) + results.last().freed_bytes
    }
}

proof fn lemma_freed_prefix(results: Seq<CleanupItemResult>, i: int)
    requires
        0 <= i < results.len(),
    ensures
        freed_sum(results.take(i)) + results[i].freed_bytes == freed_sum(results.take(i + 1)),
        freed_sum(results.take(i + 1)) <= freed_sum(results),
    decreases results.len() - i,
{
    assert(results.take(i + 1).drop_last() =~= results.take(i));
    if i + 1 < results.len() {
        lemma_freed_prefix(results, i + 1);
    } else {
        assert(results.take(i + 1) =~= results);
    }
}

/// The result of a cleanup: the item results and their freed bytes.
pub fn build_cleanup_result(results: Vec<CleanupItemResult>, finished_at: String) -> (r: CleanupResult)
    requires
        freed_sum(results@) <= u64::MAX,
    ensures
        r.results == results,
        r.total_freed_bytes == freed_sum(results@),
        r.finished_at == finished_at,
{
    let mut total: u64 = 0;
    let mut k: usize = 0;
    while k < results.len()
        invariant
            k <= results@.len(),
            freed_sum(results@) <= u64::MAX,
            total == freed_sum(results@.take(k as int)),
        decreases results@.len() - k,
    {
        proof {
            lemma_freed_prefix(results@, k as int);
        }
        total = total + results[k].freed_bytes;
        k += 1;
    }
    proof {
        assert(results@.take(results@.len() as int) =~= results@);
    }
    CleanupResult { results, total_freed_bytes: total, finished_at }
}

/// Number of results whose status is, or (with `matching` false) is not,
/// one of `statuses`.
pub open spec fn count_status(results: Seq<CleanupItemResult>, statuses: Seq<Seq<char>>, matching: bool) -> int
    decreases results.len(),
{
    if results.len() == 0 {
        0
    } else {
        count_status(results.drop_last(), statuses, matching) + if statuses.contains(results.last().status@) == matching {
            1int
        } else {
            0
        }
    }
}

/// The history of a C drive cleanup counts every item result exactly once:
/// as deleted, as skipped, or as failed.
pub proof fn law_history_counts_every_result_once(results: Seq<CleanupItemResult>)
    ensures
        count_status(results, seq!["deleted"@], true) + count_status(results, seq!["skipped"@], true) + count_status(
            results,
            seq!["deleted"@, "skipped"@],
            false,
        ) == results.len(),
    decreases results.len(),
{
    if results.len() > 0 {
        law_history_counts_every_result_once(results.drop_last());
        reveal_strlit("deleted");
        reveal_strlit("skipped");
        let st = results.last().status@;
        let d = seq!["deleted"@];
        let k = seq!["skipped"@];
        let both = seq!["deleted"@, "skipped"@];
        assert("deleted"@[1] != "skipped"@[1]);
        assert(d.contains(st) <==> st == "deleted"@) by {
            if st == "deleted"@ {
                assert(d[0] == st);
            }
        }
        assert(k.contains(st) <==> st == "skipped"@) by {
            if st == "skipped"@ {
                assert(k[0] == st);
            }
        }
        assert(both.contains(st) <==> (st == "deleted"@ || st == "skipped"@)) by {
            if st == "deleted"@ {
                assert(both[0] == st);
            }
            if st == "skipped"@ {
                assert(both[1] == st);
            }
        }
    }
}

proof fn lemma_count_status_le(results: Seq<CleanupItemResult>, statuses: Seq<Seq<char>>, matching: bool)
    ensures
        0 <= count_status(results, statuses, matching) <= results.len(),
    decreases results.len(),
{
    if results.len() > 0 {
        lemma_count_status_le(results.drop_last(), statuses, matching);
    }
}

fn count_results(results: &Vec<CleanupItemResult>, statuses: &Vec<String>, matching: bool) -> (r: u64)
    requires
        results@.len() <= u64::MAX,
    ensures
        r == count_status(results@, views(statuses@), matching),
{
    let mut count: u64 = 0;
    let mut k: usize = 0;
    while k < results.len()
        invariant
            k <= results@.len(),
            results@.len() <= u64::MAX,
            count == count_status(results@.take(k as int), views(statuses@), matching),
        decreases results@.len() - k,
    {
        proof {
            assert(results@.take(k + 1).drop_last() =~= results@.take(k as int));
            lemma_count_status_le(results@.take(k as int), views(statuses@), matching);
        }
        if crate::v2::duplicate_run::contains_text(statuses, &results[k].status) == matching {
            count = count + 1;
        }
        k += 1;
    }
    proof {
        assert(results@.take(results@.len() as int) =~= results@);
    }
    count
}

/// The error categories recorded for a C drive cleanup.
pub open spec fn c_drive_categories(failed: int, skipped: int) -> Seq<Seq<char>> {
    if failed == 0 && skipped == 0 {
        seq!["无错误"@]
    } else {
        (if failed > 0 {
            seq!["部分项目失败"@]
        } else {
            Seq::empty()
        }) + (if skipped > 0 {
            seq!["部分项目跳过"@]
        } else {
            Seq::empty()
        })
    }
}

/// The history record of a C drive cleanup: `deleted` results count as
/// successes, `skipped` ones as skipped and the rest as failures; all freed
/// bytes were on the C drive.
pub fn build_c_drive_cleanup_history_entry(result: &CleanupResult, started_at: String) -> (r: HistoryEntry)
    requires
        result.results@.len() <= u64::MAX,
    ensures
        crate::text::starts_with(r.history_id@, "history-cdrive-"@),
        r.module == OperationModule::CDriveCleanup,
        r.started_at == started_at,
        r.finished_at == result.finished_at,
        r.total_bytes == result.total_freed_bytes,
        r.freed_bytes == result.total_freed_bytes,
        r.c_drive_freed_bytes == result.total_freed_bytes,
        r.other_drive_freed_bytes == 0,
        r.success_count == count_status(result.results@, seq!["deleted"@], true),
        r.skipped_count == count_status(result.results@, seq!["skipped"@], true),
        r.failed_count == count_status(result.results@, seq!["deleted"@, "skipped"@], false),
        views(r.error_categories@) == c_drive_categories(r.failed_count as int, r.skipped_count as int),
{
    let mut deleted: Vec<String> = Vec::new();
    deleted.push(string_of("deleted"));
    let mut skipped: Vec<String> = Vec::new();
    skipped.push(string_of("skipped"));
    let mut settled: Vec<String> = Vec::new();
    settled.push(string_of("deleted"));
    settled.push(string_of("skipped"));
    proof {
        assert(views(deleted@) =~= seq!["deleted"@]);
        assert(views(skipped@) =~= seq!["skipped"@]);
        assert(views(settled@) =~= seq!["deleted"@, "skipped"@]);
    }
    let success_count = count_results(&result.results, &deleted, true);
    let skipped_count = count_results(&result.results, &skipped, true);
    let failed_count = count_results(&result.results, &settled, false);
    let mut categories: Vec<String> = Vec::new();
    if failed_count > 0 {
        categories.push(string_of("部分项目失败"));
    }
    if skipped_count > 0 {
        categories.push(string_of("部分项目跳过"));
    }
    if categories.len() == 0 {
        categories.push(string_of("无错误"));
    }
    assert(views(categories@) =~= c_drive_categories(failed_count as int, skipped_count as int));
    let id = new_identifier();
    let history_id = concat_str("history-cdrive-", id.as_str());
    proof {
        reveal_strlit("history-cdrive-");
        assert(history_id@.skip(0).take(15) =~= "history-cdrive-"@);
        assert(history_id@.take(15) =~= "history-cdrive-"@);
    }
    HistoryEntry {
        history_id,
        module: OperationModule::CDriveCleanup,
        started_at,
        finished_at: result.finished_at.clone(),
        total_bytes: result.total_freed_bytes,
        freed_bytes: result.total_freed_bytes,
        c_drive_freed_bytes: result.total_freed_bytes,
        other_drive_freed_bytes: 0,
        success_count,
        skipped_count,
        failed_count,
        error_categories: categories,
    }
}

/// A recycle-bin failure as a cleaner error.
pub fn recycle_bin_error(error: RecycleBinError) -> (r: CleanerError)
    ensures
        match error {
            RecycleBinError::Failed(m) => r matches CleanerError::RecycleBin(s) && s@ == m@,
        },
{
    CleanerError::RecycleBin(error.message())
}

/// A copy of an error.
pub fn copy_error(e: &CleanerError) -> (r: CleanerError)
    ensures
        r == *e,
{
    match e {
        CleanerError::PathOutsideAllowedRoot => CleanerError::PathOutsideAllowedRoot,
        CleanerError::PathOutsideCDrive => CleanerError::PathOutsideCDrive,
        CleanerError::PathResolution(m) => CleanerError::PathResolution(m.clone()),
        CleanerError::Io(m) => CleanerError::Io(m.clone()),
        CleanerError::OperationCancelled => CleanerError::OperationCancelled,
        CleanerError::RecycleBin(m) => CleanerError::RecycleBin(m.clone()),
        CleanerError::CopyFailed(m) => CleanerError::CopyFailed(m.clone()),
        CleanerError::VerificationFailed(m) => CleanerError::VerificationFailed(m.clone()),
        CleanerError::Settings(m) => CleanerError::Settings(m.clone()),
        CleanerError::InvalidRequest(m) => CleanerError::InvalidRequest(m.clone()),
    }
}

/// An entry of a folder, as listed just before the folder's contents are
/// moved to the recycle bin.
#[derive(Debug)]
pub struct ChildListing {
    pub path: String,
    /// Whether the entry is a link or reparse point, or why that could not
    /// be told.
    pub link_check: Result<bool, CleanerError>,
    /// The entry's canonical path, `None` when it vanished meanwhile, or why
    /// it could not be resolved.
    pub canonical: Result<Option<String>, CleanerError>,
    /// The bytes the entry holds.
    pub size_bytes: u64,
}

/// A location, as listed just before it is moved to the recycle bin.
#[derive(Debug)]
pub struct LocationListing {
    pub exists: bool,
    /// Whether the location is a link or reparse point, or why that could
    /// not be told.
    pub link_check: Result<bool, CleanerError>,
    /// The bytes the location holds.
    pub size_bytes: u64,
    /// The location's canonical path and its entries in order, or why they
    /// could not be listed (needed only when its contents are moved).
    pub contents: Result<(String, Vec<ChildListing>), CleanerError>,
}

/// What moving a location to the recycle bin gave: the freed bytes or the
/// error, and the paths handed to the recycle bin, in order.
#[derive(Debug)]
pub struct RecycleOutcome {
    pub result: Result<u64, CleanerError>,
    pub requested: Vec<String>,
}

/// The entry is moved: it is not a link, is still there and resolves inside
/// the folder.
pub open spec fn child_movable(c: ChildListing, root: Seq<char>) -> bool {
    &&& c.link_check matches Ok(false)
    &&& c.canonical matches Ok(Some(k)) && lies_under(k@, root)
}

/// The entry stops the move: it could not be checked or resolved, or it
/// resolves outside the folder.
pub open spec fn child_stops(c: ChildListing, root: Seq<char>) -> bool {
    ||| c.link_check is Err
    ||| (c.link_check matches Ok(false) && c.canonical is Err)
    ||| (c.link_check matches Ok(false) && c.canonical matches Ok(Some(k)) && !lies_under(k@, root))
}

/// The error a stopping entry gives.
pub open spec fn child_error(c: ChildListing) -> CleanerError {
    match c.link_check {
        Err(e) => e,
        Ok(_) => match c.canonical {
            Err(e) => e,
            Ok(_) => CleanerError::PathOutsideAllowedRoot,
        },
    }
}

/// The paths of the movable entries among the first `n`.
pub open spec fn movable_paths(children: Seq<ChildListing>, root: Seq<char>, n: int) -> Seq<Seq<char>>
    decreases n,
{
    if n <= 0 {
        Seq::empty()
    } else {
        movable_paths(children, root, n - 1) + if child_movable(children[n - 1], root) {
            seq![children[n - 1].path@]
        } else {
            Seq::<Seq<char>>::empty()
        }
    }
}

/// The bytes of the movable entries among the first `n`.
pub open spec fn movable_size(children: Seq<ChildListing>, root: Seq<char>, n: int) -> int
    decreases n,
{
    if n <= 0 {
        0
    } else {
        movable_size(children, root, n - 1) + if child_movable(children[n - 1], root) {
            children[n - 1].size_bytes as int
        } else {
            0
        }
    }
}

/// One of the first `n` entries stops the move.
pub open spec fn stops_before(children: Seq<ChildListing>, root: Seq<char>, n: int) -> bool {
    exists|k: int| 0 <= k < n && child_stops(#[trigger] children[k], root)
}

/// The move of the contents ended with `e` at entry `i`: every entry before
/// it passed, and either the entry stopped the move, or it was handed to
/// the recycle bin, which failed.
pub open spec fn contents_stopped_at(
    children: Seq<ChildListing>,
    root: Seq<char>,
    requested: Seq<Seq<char>>,
    e: CleanerError,
    i: int,
) -> bool {
    &&& 0 <= i < children.len()
    &&& !stops_before(children, root, i)
    &&& ((child_stops(children[i], root) && e == child_error(children[i]) && requested == movable_paths(
        children,
        root,
        i,
    )) || (child_movable(children[i], root) && e is RecycleBin && requested == movable_paths(children, root, i + 1)))
}

/// What moving the entries of a folder gives: every movable entry, and the
/// sum of their bytes, when no entry stops the move and no move fails;
/// otherwise the error at the entry where it stopped (see
/// `contents_stopped_at`).
pub open spec fn children_outcome(
    children: Seq<ChildListing>,
    root: Seq<char>,
    result: Result<u64, CleanerError>,
    requested: Seq<Seq<char>>,
) -> bool {
    match result {
        Ok(freed) => !stops_before(children, root, children.len() as int) && requested == movable_paths(
            children,
            root,
            children.len() as int,
        ) && freed == movable_size(children, root, children.len() as int),
        Err(e) => exists|i: int| #[trigger] contents_stopped_at(children, root, requested, e, i),
    }
}

proof fn lemma_movable_size_monotone(children: Seq<ChildListing>, root: Seq<char>, a: int, b: int)
    requires
        0 <= a <= b,
    ensures
        0 <= movable_size(children, root, a) <= movable_size(children, root, b),
    decreases b,
{
    if a < b {
        lemma_movable_size_monotone(children, root, a, b - 1);
    } else if a > 0 {
        lemma_movable_size_monotone(children, root, a - 1, a - 1);
    }
}

/// Moves the movable entries of a folder to the recycle bin, in order,
/// stopping at the first entry that cannot be checked or lies outside the
/// folder, or at the first failed move (see `contents_stopped_at`).
pub fn recycle_children<R: RecycleBin>(root: &str, children: &Vec<ChildListing>, recycle_bin: &R) -> (r: RecycleOutcome)
    requires
        movable_size(children@, root@, children@.len() as int) <= u64::MAX,
    ensures
        children_outcome(children@, root@, r.result, views(r.requested@)),
{
    let mut freed: u64 = 0;
    let mut requested: Vec<String> = Vec::new();
    let n = children.len();
    let mut i: usize = 0;
    while i < n
        invariant
            n == children@.len(),
            i <= n,
            movable_size(children@, root@, n as int) <= u64::MAX,
            !stops_before(children@, root@, i as int),
            views(requested@) == movable_paths(children@, root@, i as int),
            freed == movable_size(children@, root@, i as int),
        decreases n - i,
    {
        let c = &children[i];
        proof {
            lemma_movable_size_monotone(children@, root@, i + 1, n as int);
        }
        match &c.link_check {
            Err(e) => {
                let ghost rq = views(requested@);
                let err = copy_error(e);
                let out = RecycleOutcome { result: Err(err), requested };
                proof {
                    assert(views(out.requested@) == rq);
                    assert(contents_stopped_at(children@, root@, rq, err, i as int));
                    assert(contents_stopped_at(children@, root@, views(out.requested@), out.result->Err_0, i as int));
                }
                return out;
            },
            Ok(true) => {
                proof {
                    assert(!child_stops(children@[i as int], root@));
                    assert(views(requested@) =~= movable_paths(children@, root@, i + 1));
                    assert forall|k: int| 0 <= k < i + 1 implies !child_stops(#[trigger] children@[k], root@) by {
                        if k < i {
                            assert(!stops_before(children@, root@, i as int));
                        }
                    }
                }
                i += 1;
                continue;
            },
            Ok(false) => {},
        }
        let key = match &c.canonical {
            Err(e) => {
                let ghost rq = views(requested@);
                let err = copy_error(e);
                let out = RecycleOutcome { result: Err(err), requested };
                proof {
                    assert(views(out.requested@) == rq);
                    assert(contents_stopped_at(children@, root@, rq, err, i as int));
                    assert(contents_stopped_at(children@, root@, views(out.requested@), out.result->Err_0, i as int));
                }
                return out;
            },
            Ok(None) => {
                proof {
                    assert(!child_stops(children@[i as int], root@));
                    assert(views(requested@) =~= movable_paths(children@, root@, i + 1));
                    assert forall|k: int| 0 <= k < i + 1 implies !child_stops(#[trigger] children@[k], root@) by {
                        if k < i {
                            assert(!stops_before(children@, root@, i as int));
                        }
                    }
                }
                i += 1;
                continue;
            },
            Ok(Some(k)) => k,
        };
        match crate::paths::ensure_under_root(key.as_str(), root) {
            Err(_) => {
                let ghost rq = views(requested@);
                let out = RecycleOutcome { result: Err(CleanerError::PathOutsideAllowedRoot), requested };
                proof {
                    assert(views(out.requested@) == rq);
                    assert(contents_stopped_at(children@, root@, views(out.requested@), out.result->Err_0, i as int));
                }
                return out;
            },
            Ok(()) => {},
        }
        let ghost before = views(requested@);
        requested.push(c.path.clone());
        proof {
            assert(child_movable(children@[i as int], root@));
            assert(views(requested@) =~= before.push(c.path@));
            assert(views(requested@) =~= movable_paths(children@, root@, i + 1));
        }
        match recycle_bin.move_to_recycle_bin(c.path.as_str()) {
            Err(e) => {
                let ghost rq = views(requested@);
                let err = recycle_bin_error(e);
                let out = RecycleOutcome { result: Err(err), requested };
                proof {
                    assert(views(out.requested@) == rq);
                    assert(contents_stopped_at(children@, root@, rq, err, i as int));
                    assert(contents_stopped_at(children@, root@, views(out.requested@), out.result->Err_0, i as int));
                }
                return out;
            },
            Ok(()) => {},
        }
        freed = freed + c.size_bytes;
        proof {
            assert forall|k: int| 0 <= k < i + 1 implies !child_stops(#[trigger] children@[k], root@) by {
                if k < i {
                    assert(!stops_before(children@, root@, i as int));
                }
            }
        }
        i += 1;
    }
    RecycleOutcome { result: Ok(freed), requested }
}

/// The error given for a location that is a link or reparse point.
pub open spec fn link_refusal() -> Seq<char> {
    "refusing to move a link or reparse point to recycle bin"@
}

/// The most bytes moving a location can free.
pub open spec fn recycle_bound(listing: LocationListing, contents_only: bool) -> int {
    if contents_only {
        match listing.contents {
            Ok((root, children)) => movable_size(children@, root@, children@.len() as int),
            Err(_) => 0,
        }
    } else {
        listing.size_bytes as int
    }
}

/// What moving a location (`path`) or its contents to the recycle bin gives,
/// by its listing: nothing for a location that is gone, the link refusal for
/// a link, the listing error when it could not be checked or listed, the
/// outcome of moving its entries (see `children_outcome`), or, for the whole
/// location, its bytes or the recycle bin's error after handing it over.
pub open spec fn recycle_expected(
    listing: LocationListing,
    contents_only: bool,
    path: Seq<char>,
    result: Result<u64, CleanerError>,
    requested: Seq<Seq<char>>,
) -> bool {
    if !listing.exists {
        result == Ok::<u64, CleanerError>(0) && requested.len() == 0
    } else {
        match listing.link_check {
            Err(e) => result == Err::<u64, CleanerError>(e) && requested.len() == 0,
            Ok(true) => requested.len() == 0 && (result matches Err(CleanerError::PathResolution(m)) && m@
                == link_refusal()),
            Ok(false) => if contents_only {
                match listing.contents {
                    Err(e) => result == Err::<u64, CleanerError>(e) && requested.len() == 0,
                    Ok((root, children)) => children_outcome(children@, root@, result, requested),
                }
            } else {
                requested == seq![path] && (result == Ok::<u64, CleanerError>(listing.size_bytes) || result is Err
                    && result->Err_0 is RecycleBin)
            },
        }
    }
}

/// Moves the contents of a folder to the recycle bin (see
/// `recycle_expected`).
pub fn recycle_path_contents<R: RecycleBin>(listing: &LocationListing, recycle_bin: &R) -> (r: RecycleOutcome)
    requires
        recycle_bound(*listing, true) <= u64::MAX,
    ensures
        recycle_expected(*listing, true, Seq::empty(), r.result, views(r.requested@)),
{
    if !listing.exists {
        return RecycleOutcome { result: Ok(0), requested: Vec::new() };
    }
    match &listing.link_check {
        Err(e) => return RecycleOutcome { result: Err(copy_error(e)), requested: Vec::new() },
        Ok(true) => {
            return RecycleOutcome {
                result: Err(CleanerError::PathResolution(string_of("refusing to move a link or reparse point to recycle bin"))),
                requested: Vec::new(),
            };
        },
        Ok(false) => {},
    }
    match &listing.contents {
        Err(e) => RecycleOutcome { result: Err(copy_error(e)), requested: Vec::new() },
        Ok((root, children)) => recycle_children(root.as_str(), children, recycle_bin),
    }
}

/// Moves a location, or only its contents, to the recycle bin (see
/// `recycle_expected`).
pub fn recycle_path_or_contents<R: RecycleBin>(
    path: &str,
    listing: &LocationListing,
    contents_only: bool,
    recycle_bin: &R,
) -> (r: RecycleOutcome)
    requires
        recycle_bound(*listing, contents_only) <= u64::MAX,
    ensures
        recycle_expected(*listing, contents_only, path@, r.result, views(r.requested@)),
{
    if contents_only {
        let r = recycle_path_contents(listing, recycle_bin);
        return r;
    }
    if !listing.exists {
        return RecycleOutcome { result: Ok(0), requested: Vec::new() };
    }
    match &listing.link_check {
        Err(e) => return RecycleOutcome { result: Err(copy_error(e)), requested: Vec::new() },
        Ok(true) => {
            return RecycleOutcome {
                result: Err(CleanerError::PathResolution(string_of("refusing to move a link or reparse point to recycle bin"))),
                requested: Vec::new(),
            };
        },
        Ok(false) => {},
    }
    let mut requested: Vec<String> = Vec::new();
    requested.push(string_of(path));
    proof {
        assert(views(requested@) =~= seq![path@]);
    }
    match recycle_bin.move_to_recycle_bin(path) {
        Ok(()) => RecycleOutcome { result: Ok(listing.size_bytes), requested },
        Err(e) => RecycleOutcome { result: Err(recycle_bin_error(e)), requested },
    }
}

/// What was found at a checked item's location just before cleaning it:
/// what decides whether it may be cleaned, and the listing used to move it.
#[derive(Debug)]
pub struct CheckFindings {
    pub observation: CheckObservation,
    pub listing: LocationListing,
}

/// A cleanup carried out: its result, and for each step the paths handed to
/// the recycle bin.
#[derive(Debug)]
pub struct ExecutedCleanup {
    pub result: CleanupResult,
    pub requested: Vec<Vec<String>>,
}

/// The checked item may be moved to the recycle bin (see `check_outcome`).
pub open spec fn check_passes(check: CheckedItem, obs: CheckObservation) -> bool {
    &&& obs.exists
    &&& obs.root_check is Ok
    &&& !(check.protect_config_references && obs.config_referenced)
    &&& !obs.process_referenced
    &&& obs.old_enough
}

/// `r` is the result of moving a checked item's location (see
/// `recycled_item_result`).
pub open spec fn recycled_result_is(check: CheckedItem, outcome: Result<u64, CleanerError>, r: CleanupItemResult) -> bool {
    &&& r.item_id@ == check.item_id@
    &&& match outcome {
        Ok(freed) => r.status@ == "deleted"@ && r.freed_bytes == freed && r.message@ == check.title@ + " 已移入回收站。"@,
        Err(_) => result_is(r, check.item_id@, "failed"@, check.title@ + " 移入回收站失败，本项未清理。"@),
    }
}

/// A step carried out: a decided step keeps its result and hands nothing
/// over; a checked item whose findings forbid cleaning gets the result of
/// `check_outcome` and hands nothing over; any other is moved as its
/// listing allows (see `recycle_expected`) and gets the result of that move.
pub open spec fn step_executed(
    step: CleanupStep,
    finding: Option<CheckFindings>,
    r: CleanupItemResult,
    requested: Seq<Seq<char>>,
) -> bool {
    match step {
        CleanupStep::Done(x) => r == x && requested.len() == 0,
        CleanupStep::Check(c) => match finding {
            None => false,
            Some(f) => if check_passes(c, f.observation) {
                exists|o: Result<u64, CleanerError>| #[trigger]
                    recycle_expected(f.listing, c.contents_only, c.expected_path@, o, requested)
                        && recycled_result_is(c, o, r)
            } else {
                check_outcome(c, f.observation, Some(r)) && requested.len() == 0
            },
        },
    }
}

/// The most bytes a step can free.
pub open spec fn step_bound(step: CleanupStep, finding: Option<CheckFindings>) -> int {
    match step {
        CleanupStep::Done(x) => x.freed_bytes as int,
        CleanupStep::Check(c) => match finding {
            Some(f) => recycle_bound(f.listing, c.contents_only),
            None => 0,
        },
    }
}

/// The most bytes the first `n` steps can free.
pub open spec fn steps_bound(steps: Seq<CleanupStep>, findings: Seq<Option<CheckFindings>>, n: int) -> int
    decreases n,
{
    if n <= 0 {
        0
    } else {
        steps_bound(steps, findings, n - 1) + step_bound(steps[n - 1], findings[n - 1])
    }
}

proof fn lemma_recycle_bound_nonneg(listing: LocationListing, contents_only: bool)
    ensures
        recycle_bound(listing, contents_only) >= 0,
{
    if contents_only {
        match listing.contents {
            Ok((root, children)) => lemma_movable_size_monotone(children@, root@, 0, children@.len() as int),
            Err(_) => {},
        }
    }
}

proof fn lemma_steps_bound_monotone(steps: Seq<CleanupStep>, findings: Seq<Option<CheckFindings>>, a: int, b: int)
    requires
        0 <= a <= b,
    ensures
        0 <= steps_bound(steps, findings, a) <= steps_bound(steps, findings, b),
    decreases b,
{
    if b > 0 {
        match steps[b - 1] {
            CleanupStep::Check(c) => match findings[b - 1] {
                Some(f) => lemma_recycle_bound_nonneg(f.listing, c.contents_only),
                None => {},
            },
            CleanupStep::Done(_) => {},
        }
    }
    if a < b {
        lemma_steps_bound_monotone(steps, findings, a, b - 1);
    } else if a > 0 {
        lemma_steps_bound_monotone(steps, findings, a - 1, a - 1);
    }
}

proof fn lemma_recycled_within_bound(
    listing: LocationListing,
    contents_only: bool,
    path: Seq<char>,
    freed: u64,
    requested: Seq<Seq<char>>,
)
    requires
        recycle_expected(listing, contents_only, path, Ok(freed), requested),
    ensures
        freed <= recycle_bound(listing, contents_only),
{
    lemma_recycle_bound_nonneg(listing, contents_only);
}

proof fn lemma_freed_sum_push(results: Seq<CleanupItemResult>, x: CleanupItemResult)
    ensures
        freed_sum(results.push(x)) == freed_sum(results) + x.freed_bytes,
{
    assert(results.push(x).drop_last() =~= results);
}

fn copy_item_result(x: &CleanupItemResult) -> (r: CleanupItemResult)
    ensures
        r == *x,
{
    CleanupItemResult {
        item_id: x.item_id.clone(),
        status: x.status.clone(),
        freed_bytes: x.freed_bytes,
        message: x.message.clone(),
    }
}

/// Carries out planned cleanup steps (see `plan_selected_cleanup`) with
/// what was found at each checked location, in order (see
/// `step_executed`).
pub fn execute_planned_cleanup<R: RecycleBin>(
    steps: &Vec<CleanupStep>,
    findings: &Vec<Option<CheckFindings>>,
    recycle_bin: &R,
    finished_at: String,
) -> (r: ExecutedCleanup)
    requires
        findings@.len() == steps@.len(),
        forall|j: int| 0 <= j < steps@.len() && (#[trigger] steps@[j]) is Check ==> findings@[j] is Some,
        steps_bound(steps@, findings@, steps@.len() as int) <= u64::MAX,
    ensures
        r.result.results@.len() == steps@.len(),
        r.requested@.len() == steps@.len(),
        forall|j: int|
            0 <= j < steps@.len() ==> step_executed(
                #[trigger] steps@[j],
                findings@[j],
                r.result.results@[j],
                views(r.requested@[j]@),
            ),
        r.result.total_freed_bytes == freed_sum(r.result.results@),
        r.result.finished_at == finished_at,
{
    let mut results: Vec<CleanupItemResult> = Vec::new();
    let mut requested: Vec<Vec<String>> = Vec::new();
    let n = steps.len();
    let mut i: usize = 0;
    while i < n
        invariant
            n == steps@.len(),
            i <= n,
            findings@.len() == n,
            forall|j: int| 0 <= j < n && (#[trigger] steps@[j]) is Check ==> findings@[j] is Some,
            steps_bound(steps@, findings@, n as int) <= u64::MAX,
            results@.len() == i,
            requested@.len() == i,
            forall|j: int|
                0 <= j < i ==> step_executed(
                    #[trigger] steps@[j],
                    findings@[j],
                    results@[j],
                    views(requested@[j]@),
                ),
            freed_sum(results@) <= steps_bound(steps@, findings@, i as int),
        decreases n - i,
    {
        proof {
            lemma_steps_bound_monotone(steps@, findings@, i + 1, n as int);
            lemma_steps_bound_monotone(steps@, findings@, i as int, i as int);
        }
        let ghost old_results = results@;
        let ghost old_requested = requested@;
        let (result, handed) = match &steps[i] {
            CleanupStep::Done(x) => {
                let x2 = copy_item_result(x);
                proof {
                    assert(x2.freed_bytes <= step_bound(steps@[i as int], findings@[i as int]));
                }
                (x2, Vec::new())
            },
            CleanupStep::Check(c) => {
                proof {
                    assert(steps@[i as int] is Check);
                }
                let f = findings[i].as_ref().unwrap();
                match decide_checked_item(c, &f.observation) {
                    Some(x) => {
                        proof {
                            lemma_recycle_bound_nonneg(f.listing, c.contents_only);
                            assert(x.freed_bytes <= step_bound(steps@[i as int], findings@[i as int]));
                        }
                        (x, Vec::new())
                    },
                    None => {
                        proof {
                            lemma_recycle_bound_nonneg(f.listing, c.contents_only);
                        }
                        let o = recycle_path_or_contents(c.expected_path.as_str(), &f.listing, c.contents_only, recycle_bin);
                        let x = recycled_item_result(c, &o.result);
                        proof {
                            match o.result {
                                Ok(freed) => lemma_recycled_within_bound(
                                    f.listing,
                                    c.contents_only,
                                    c.expected_path@,
                                    freed,
                                    views(o.requested@),
                                ),
                                Err(_) => {},
                            }
                            assert(recycle_expected(f.listing, c.contents_only, c.expected_path@, o.result, views(o.requested@))
                                && recycled_result_is(*c, o.result, x));
                            assert(x.freed_bytes <= step_bound(steps@[i as int], findings@[i as int]));
                        }
                        (x, o.requested)
                    },
                }
            },
        };
        proof {
            lemma_freed_sum_push(results@, result);
            assert(steps_bound(steps@, findings@, i + 1) == steps_bound(steps@, findings@, i as int) + step_bound(
                steps@[i as int],
                findings@[i as int],
            ));
        }
        results.push(result);
        requested.push(handed);
        proof {
            assert forall|j: int|
                0 <= j < i + 1 implies step_executed(
                #[trigger] steps@[j],
                findings@[j],
                results@[j],
                views(requested@[j]@),
            ) by {
                if j < i {
                    assert(results@[j] == old_results[j]);
                    assert(requested@[j] == old_requested[j]);
                }
            }
        }
        i += 1;
    }
    let result = build_cleanup_result(results, finished_at);
    ExecutedCleanup { result, requested }
}

/// `p` is the path of a movable entry of the folder.
pub open spec fn names_movable_entry(children: Seq<ChildListing>, root: Seq<char>, p: Seq<char>) -> bool {
    exists|j: int| 0 <= j < children.len() && child_movable(#[trigger] children[j], root) && children[j].path@ == p
}

proof fn lemma_movable_paths_named(children: Seq<ChildListing>, root: Seq<char>, m: int)
    requires
        0 <= m <= children.len(),
    ensures
        forall|k: int|
            0 <= k < movable_paths(children, root, m).len() ==> names_movable_entry(
                children,
                root,
                #[trigger] movable_paths(children, root, m)[k],
            ),
    decreases m,
{
    if m > 0 {
        lemma_movable_paths_named(children, root, m - 1);
        let prev = movable_paths(children, root, m - 1);
        let cur = movable_paths(children, root, m);
        assert forall|k: int| 0 <= k < cur.len() implies names_movable_entry(children, root, #[trigger] cur[k]) by {
            if k < prev.len() {
                assert(cur[k] == prev[k]);
            } else {
                assert(child_movable(children[m - 1], root));
                assert(cur[k] == children[m - 1].path@);
            }
        }
    }
}

/// The recycle bin is only handed a checked location that passed every
/// check and is neither gone nor a link: the location itself, or, when only
/// its contents are cleaned, entries of it that are not links and resolve
/// inside it.
pub proof fn law_only_checked_locations_are_recycled(
    step: CleanupStep,
    finding: Option<CheckFindings>,
    r: CleanupItemResult,
    requested: Seq<Seq<char>>,
    k: int,
)
    requires
        step_executed(step, finding, r, requested),
        0 <= k < requested.len(),
    ensures
        match step {
            CleanupStep::Check(c) => match finding {
                Some(f) => check_passes(c, f.observation) && f.listing.exists && (f.listing.link_check matches Ok(false))
                    && if c.contents_only {
                    match f.listing.contents {
                        Ok((root, children)) => names_movable_entry(children@, root@, requested[k]),
                        Err(_) => false,
                    }
                } else {
                    requested[k] == c.expected_path@
                },
                None => false,
            },
            CleanupStep::Done(_) => false,
        },
{
    match step {
        CleanupStep::Done(_) => {},
        CleanupStep::Check(c) => {
            let f = finding.unwrap();
            if check_passes(c, f.observation) {
                let o = choose|o: Result<u64, CleanerError>| #[trigger]
                    recycle_expected(f.listing, c.contents_only, c.expected_path@, o, requested)
                        && recycled_result_is(c, o, r);
                if c.contents_only {
                    match f.listing.contents {
                        Ok((root, children)) => {
                            let n = children@.len() as int;
                            match o {
                                Ok(_) => {
                                    lemma_movable_paths_named(children@, root@, n);
                                },
                                Err(e) => {
                                    let i = choose|i: int| #[trigger]
                                        contents_stopped_at(children@, root@, requested, e, i);
                                    lemma_movable_paths_named(children@, root@, i);
                                    lemma_movable_paths_named(children@, root@, i + 1);
                                },
                            }
                        },
                        Err(_) => {},
                    }
                }
            }
        },
    }
}

/// A checked step planned for a selection names its rule's own location,
/// and both that location and the rule's folder lie on the C drive.
pub proof fn law_planned_checks_stay_on_c_drive(
    steps: Seq<CleanupStep>,
    selection: CleanupSelection,
    items: Seq<ScanItem>,
    roots: ScanRoots,
    j: int,
)
    requires
        planned_steps(steps, selection, items, roots),
        0 <= j < steps.len(),
        steps[j] is Check,
    ensures
        is_c_drive(steps[j]->Check_0.expected_path@),
        is_c_drive(steps[j]->Check_0.expected_root@),
{
    let rules = choose|rules: Seq<CleanupRule>| #[trigger] are_builtin_rules(rules) && steps_follow(steps, selection, items, rules, roots);
    let ids = crate::v2::duplicate_run::merged_paths(Seq::empty(), views(selection.selected_item_ids@));
    assert(step_for(ids[j], items, rules, roots, steps[j]));
}

/// Whatever a cleanup hands to the recycle bin comes from a step planned for
/// the selection that passed every check at a location on the C drive: the
/// location itself, or entries of it that are not links and resolve inside
/// it.
pub proof fn law_recycled_locations_are_checked_c_drive_locations(
    steps: Seq<CleanupStep>,
    selection: CleanupSelection,
    items: Seq<ScanItem>,
    roots: ScanRoots,
    findings: Seq<Option<CheckFindings>>,
    results: Seq<CleanupItemResult>,
    requested: Seq<Seq<Seq<char>>>,
    j: int,
    k: int,
)
    requires
        planned_steps(steps, selection, items, roots),
        0 <= j < steps.len(),
        findings.len() == steps.len(),
        results.len() == steps.len(),
        requested.len() == steps.len(),
        forall|q: int| 0 <= q < steps.len() ==> step_executed(#[trigger] steps[q], findings[q], results[q], requested[q]),
        0 <= k < requested[j].len(),
    ensures
        steps[j] is Check,
        is_c_drive(steps[j]->Check_0.expected_path@),
        check_passes(steps[j]->Check_0, findings[j]->Some_0.observation),
        !steps[j]->Check_0.contents_only ==> requested[j][k] == steps[j]->Check_0.expected_path@,
{
    assert(step_executed(steps[j], findings[j], results[j], requested[j]));
    law_only_checked_locations_are_recycled(steps[j], findings[j], results[j], requested[j], k);
    law_planned_checks_stay_on_c_drive(steps, selection, items, roots, j);
}

proof fn lemma_first_item_found(items: Seq<ScanItem>, id: Seq<char>, n: int)
    requires
        first_item_index(items, id, n) >= 0,
    ensures
        first_item_index(items, id, n) < n,
        items[first_item_index(items, id, n)].id@ == id,
    decreases n,
{
    if n > 0 && first_item_index(items, id, n - 1) >= 0 {
        lemma_first_item_found(items, id, n - 1);
    }
}

proof fn lemma_first_rule_found(rules: Seq<CleanupRule>, id: Seq<char>, n: int)
    requires
        first_rule_index(rules, id, n) >= 0,
    ensures
        first_rule_index(rules, id, n) < n,
        rules[first_rule_index(rules, id, n)].id@ == id,
    decreases n,
{
    if n > 0 && first_rule_index(rules, id, n - 1) >= 0 {
        lemma_first_rule_found(rules, id, n - 1);
    }
}

/// What the plan checks before a location of the selected id `id` may reach
/// the recycle bin, with `rules` the built-in rules: the scan still lists an
/// item with the id, a rule has the id, the item may be cleaned, both the
/// item and the rule delete directly, the item's path is the rule's
/// location, that location and the rule's folder lie on the C drive, and the
/// checked item `c` names that location and folder and cleans only the
/// contents exactly when the rule says so.
pub open spec fn plan_allows(
    id: Seq<char>,
    items: Seq<ScanItem>,
    rules: Seq<CleanupRule>,
    roots: ScanRoots,
    c: CheckedItem,
) -> bool {
    let k = first_item_index(items, id, items.len() as int);
    &&& 0 <= k < items.len()
    &&& items[k].id@ == id
    &&& {
        let item = items[k];
        let q = first_rule_index(rules, item.id@, rules.len() as int);
        &&& 0 <= q < rules.len()
        &&& rules[q].id@ == id
        &&& {
            let rule = rules[q];
            &&& item.risk_level != RiskLevel::NotCleanable
            &&& item.cleanup_action == CleanupAction::DirectDelete
            &&& rule.cleanup_action == CleanupAction::DirectDelete
            &&& (item.technical_path matches Some(p) && same_location(p@, rule_path(rule, roots)))
            &&& is_c_drive(rule_root(rule, roots))
            &&& is_c_drive(rule_path(rule, roots))
            &&& c.expected_path@ == rule_path(rule, roots)
            &&& c.expected_root@ == rule_root(rule, roots)
            &&& c.contents_only == rule.delete_contents_only
        }
    }
}

/// A whole cleanup, planned by `plan_selected_cleanup` and carried out by
/// `execute_planned_cleanup`, hands a path to the recycle bin only for a
/// selected id that passed every check of the plan (see `plan_allows`) and
/// every check at the location (see `check_passes`); the path is the rule's
/// location itself, or, when the rule cleans only the contents, an entry of
/// the location's listing that is not a link and resolves inside it.
pub proof fn law_cleanup_recycles_only_what_every_check_allows(
    steps: Seq<CleanupStep>,
    selection: CleanupSelection,
    items: Seq<ScanItem>,
    roots: ScanRoots,
    findings: Seq<Option<CheckFindings>>,
    results: Seq<CleanupItemResult>,
    requested: Seq<Seq<Seq<char>>>,
    j: int,
    k: int,
)
    requires
        planned_steps(steps, selection, items, roots),
        0 <= j < steps.len(),
        findings.len() == steps.len(),
        results.len() == steps.len(),
        requested.len() == steps.len(),
        forall|q: int| 0 <= q < steps.len() ==> step_executed(#[trigger] steps[q], findings[q], results[q], requested[q]),
        0 <= k < requested[j].len(),
    ensures
        steps[j] is Check,
        exists|rules: Seq<CleanupRule>|
            #[trigger] are_builtin_rules(rules) && plan_allows(
                crate::v2::duplicate_run::merged_paths(Seq::empty(), views(selection.selected_item_ids@))[j],
                items,
                rules,
                roots,
                steps[j]->Check_0,
            ),
        check_passes(steps[j]->Check_0, findings[j]->Some_0.observation),
        !steps[j]->Check_0.contents_only ==> requested[j][k] == steps[j]->Check_0.expected_path@,
        steps[j]->Check_0.contents_only ==> (findings[j]->Some_0.listing.contents matches Ok((root, children))
            && names_movable_entry(children@, root@, requested[j][k])),
{
    assert(step_executed(steps[j], findings[j], results[j], requested[j]));
    law_only_checked_locations_are_recycled(steps[j], findings[j], results[j], requested[j], k);
    let rules = choose|rules: Seq<CleanupRule>| #[trigger] are_builtin_rules(rules) && steps_follow(steps, selection, items, rules, roots);
    let ids = crate::v2::duplicate_run::merged_paths(Seq::empty(), views(selection.selected_item_ids@));
    assert(step_for(ids[j], items, rules, roots, steps[j]));
    let ki = first_item_index(items, ids[j], items.len() as int);
    lemma_first_item_found(items, ids[j], items.len() as int);
    let q = first_rule_index(rules, items[ki].id@, rules.len() as int);
    lemma_first_rule_found(rules, items[ki].id@, rules.len() as int);
    assert(plan_allows(ids[j], items, rules, roots, steps[j]->Check_0));
}

} // verus!
