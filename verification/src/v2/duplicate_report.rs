//! Finishing a duplicate scan: suspected groups, recommendations and the
//! reclaimable totals of the report.
use vstd::prelude::*;

use crate::order::{is_permutation, lemma_permutation_onto, order_by_key, order_by_text, sorted_by_key_stable, sorted_by_text_stable};
use crate::text::lex_lt;
use crate::v2::duplicate::{
    apply_duplicate_recommendations, copy_backend_entry, drive_is_c, is_c_drive_label,
    recommendation_applied, same_entry_except_choice, size_sum, DuplicateBackendEntry,
};
use crate::v2::duplicate_groups::{
    build_group, built_from, copy_entry, groups_bytes, hash_classes, hash_views, is_hash_partition,
    same_hash, BuiltGroup,
};
use crate::v2::duplicate_scan::{candidate_sizes, total_size, CandidateFile, DuplicateScanCollector};
use crate::v2::models::{
    DuplicateFileEntry, DuplicateFileGroup, DuplicateRecommendedAction, DuplicateScanReport,
};

verus! {

/// Two sizes are close enough for suspected duplicates: the larger exceeds
/// the smaller by at most two percent of it (two empty files always are).
pub open spec fn within_delta(smallest: u64, largest: u64) -> bool {
    if smallest == 0 {
        largest == 0
    } else {
        (if largest > smallest {
            largest - smallest
        } else {
            0
        }) * 100 <= smallest * 2
    }
}

/// Whether two sizes are close enough for suspected duplicates (see
/// `within_delta`); computed without overflow.
pub fn within_suspected_delta(smallest: u64, largest: u64) -> (r: bool)
    ensures
        r == within_delta(smallest, largest),
{
    if smallest == 0 {
        return largest == 0;
    }
    let diff: u128 = if largest > smallest {
        (largest - smallest) as u128
    } else {
        0
    };
    let bound: u128 = (smallest as u128) * 2;
    proof {
        assert(diff * 100 <= u64::MAX * 100) by (nonlinear_arith)
            requires
                diff <= u64::MAX,
        ;
    }
    diff * 100 <= bound
}

/// Normalized stems as keys; an empty stem takes part in no group.
pub open spec fn stem_keys(c: Seq<CandidateFile>) -> Seq<Option<Seq<char>>> {
    Seq::new(
        c.len(),
        |i: int|
            if c[i].normalized_stem@.len() == 0 {
                None
            } else {
                Some(c[i].normalized_stem@)
            },
    )
}

/// `s` lists candidates of one stem class by ascending size (keeping the
/// order they were found in among equal sizes).
pub open spec fn sorted_class(s: Seq<usize>, class: Seq<usize>, sizes: Seq<u64>) -> bool {
    &&& s.len() == class.len()
    &&& forall|a: int| 0 <= a < s.len() ==> class.contains(#[trigger] s[a])
    &&& forall|x: int| 0 <= x < class.len() ==> s.contains(#[trigger] class[x])
    &&& forall|a: int, b: int| 0 <= a < b < s.len() ==> sizes[(#[trigger] s[a]) as int] <= sizes[(#[trigger] s[b]) as int]
}

/// The suspected groups of the candidates: `m` is their partition into
/// classes of equal non-empty stem, and group `g` shows class `m[cls[g]]`
/// arranged as `sm[g]`, by ascending size. Exactly the classes whose
/// smallest and largest sizes are within the delta have a group, in order
/// of ascending stem.
pub open spec fn suspected_groups_of(
    groups: Seq<DuplicateFileGroup>,
    sm: Seq<Seq<usize>>,
    orders: Seq<Seq<usize>>,
    cls: Seq<int>,
    m: Seq<Seq<usize>>,
    candidates: Seq<CandidateFile>,
) -> bool {
    let sizes = candidate_sizes(candidates);
    &&& is_hash_partition(m, stem_keys(candidates))
    &&& groups.len() == sm.len()
    &&& orders.len() == sm.len()
    &&& cls.len() == sm.len()
    &&& forall|g: int|
        0 <= g < groups.len() ==> built_from(#[trigger] groups[g], Seq::empty(), orders[g], candidates, sm[g], true)
    &&& forall|g: int|
        0 <= g < sm.len() ==> 0 <= #[trigger] cls[g] < m.len() && sorted_class(sm[g], m[cls[g]], sizes)
            && within_delta(sizes[sm[g][0] as int], sizes[sm[g][sm[g].len() - 1] as int])
    &&& forall|g1: int, g2: int|
        0 <= g1 < g2 < sm.len() ==> lex_lt(
            candidates[m[#[trigger] cls[g1]][0] as int].normalized_stem@,
            candidates[m[#[trigger] cls[g2]][0] as int].normalized_stem@,
        )
    &&& forall|c: int| 0 <= c < m.len() ==> #[trigger] class_handled(cls, m, c, sizes)
}

/// Class `c` has a suspected group, or arranged by size its smallest and
/// largest sizes are not within the delta.
pub open spec fn class_handled(cls: Seq<int>, m: Seq<Seq<usize>>, c: int, sizes: Seq<u64>) -> bool {
    (exists|g: int| 0 <= g < cls.len() && #[trigger] cls[g] == c) || (exists|s: Seq<usize>|
        #[trigger] sorted_class(s, m[c], sizes) && !within_delta(sizes[s[0] as int], sizes[s[s.len() - 1] as int]))
}

/// The suspected groups with the ghost facts that describe them.
pub struct SuspectedGroups {
    pub groups: Vec<DuplicateFileGroup>,
    /// The candidates of each group, by ascending size.
    pub members: Ghost<Seq<Seq<usize>>>,
    /// How the copies of each group are arranged.
    pub orders: Ghost<Seq<Seq<usize>>>,
    /// The stem class that each group shows.
    pub classes: Ghost<Seq<int>>,
    /// The classes of equal non-empty stem.
    pub partition: Ghost<Seq<Seq<usize>>>,
}

/// The candidates of `class` by ascending size, keeping the order they were
/// found in among equal sizes.
fn sort_class_by_size(candidates: &Vec<CandidateFile>, class: &Vec<usize>) -> (s: Vec<usize>)
    requires
        forall|a: int| 0 <= a < class@.len() ==> (#[trigger] class@[a]) < candidates@.len(),
        forall|a: int, b: int| 0 <= a < b < class@.len() ==> (#[trigger] class@[a]) < (#[trigger] class@[b]),
    ensures
        sorted_class(s@, class@, candidate_sizes(candidates@)),
        forall|a: int| 0 <= a < s@.len() ==> (#[trigger] s@[a]) < candidates@.len(),
        forall|a: int, b: int| 0 <= a < b < s@.len() ==> (#[trigger] s@[a]) != (#[trigger] s@[b]),
{
    let ghost sizes = candidate_sizes(candidates@);
    let mut ks: Vec<u64> = Vec::new();
    let mut a: usize = 0;
    while a < class.len()
        invariant
            a <= class@.len(),
            ks@.len() == a,
            forall|x: int| 0 <= x < class@.len() ==> (#[trigger] class@[x]) < candidates@.len(),
            forall|j: int| 0 <= j < a ==> #[trigger] ks@[j] == sizes[class@[j] as int],
            sizes == candidate_sizes(candidates@),
        decreases class@.len() - a,
    {
        ks.push(candidates[class[a]].size_bytes);
        a += 1;
    }
    let q = order_by_key(&ks);
    let mut s: Vec<usize> = Vec::new();
    let mut j: usize = 0;
    while j < q.len()
        invariant
            j <= q@.len(),
            q@.len() == class@.len(),
            is_permutation(q@, class@.len() as int),
            s@.len() == j,
            forall|x: int| 0 <= x < j ==> #[trigger] s@[x] == class@[q@[x] as int],
        decreases q@.len() - j,
    {
        s.push(class[q[j]]);
        j += 1;
    }
    proof {
        assert forall|x: int| 0 <= x < s@.len() implies class@.contains(#[trigger] s@[x]) by {
            assert(s@[x] == class@[q@[x] as int]);
        }
        assert forall|x: int| 0 <= x < class@.len() implies s@.contains(#[trigger] class@[x]) by {
            lemma_permutation_onto(q@, class@.len() as int, x);
            let k = choose|k: int| 0 <= k < q@.len() && q@[k] == x;
            assert(s@[k] == class@[x]);
        }
        assert forall|x: int, y: int| 0 <= x < y < s@.len() implies sizes[(#[trigger] s@[x]) as int] <= sizes[(#[trigger] s@[y]) as int] by {
            assert(ks@[q@[x] as int] == sizes[class@[q@[x] as int] as int]);
            assert(ks@[q@[y] as int] == sizes[class@[q@[y] as int] as int]);
        }
        assert forall|x: int| 0 <= x < s@.len() implies (#[trigger] s@[x]) < candidates@.len() by {
            assert(s@[x] == class@[q@[x] as int]);
        }
        assert forall|x: int, y: int| 0 <= x < y < s@.len() implies (#[trigger] s@[x]) != (#[trigger] s@[y]) by {
            let qx = q@[x] as int;
            let qy = q@[y] as int;
            assert(qx != qy);
            if qx < qy {
                assert(class@[qx] < class@[qy]);
            } else {
                assert(class@[qy] < class@[qx]);
            }
        }
    }
    s
}

/// The suspected duplicate groups of the candidates: candidates of equal
/// non-empty normalized stem, ordered by size, whose smallest and largest
/// sizes are within the delta (see `suspected_groups_of`).
pub fn suspected_duplicate_groups(candidates: &Vec<CandidateFile>) -> (r: SuspectedGroups)
    requires
        total_size(candidate_sizes(candidates@), candidates@.len() as int) <= u64::MAX,
    ensures
        suspected_groups_of(r.groups@, r.members@, r.orders@, r.classes@, r.partition@, candidates@),
{
    let n = candidates.len();
    let ghost sizes = candidate_sizes(candidates@);
    let ghost keys_spec = stem_keys(candidates@);
    let mut keys: Vec<Option<String>> = Vec::new();
    let mut i: usize = 0;
    while i < n
        invariant
            n == candidates@.len(),
            i <= n,
            keys@.len() == i,
            keys_spec == stem_keys(candidates@),
            forall|j: int| 0 <= j < i ==> #[trigger] hash_views(keys@)[j] == keys_spec[j],
        decreases n - i,
    {
        let stem = &candidates[i].normalized_stem;
        let ghost before = keys@;
        if crate::text::to_chars(stem.as_str()).len() == 0 {
            keys.push(None);
        } else {
            keys.push(Some(stem.clone()));
        }
        proof {
            assert forall|j: int| 0 <= j < i + 1 implies #[trigger] hash_views(keys@)[j] == keys_spec[j] by {
                if j < i {
                    assert(keys@[j] == before[j]);
                    assert(hash_views(before)[j] == keys_spec[j]);
                } else {
                    assert(keys@[j] == keys@[i as int]);
                }
            }
        }
        i += 1;
    }
    assert(hash_views(keys@) =~= keys_spec);
    let classes = hash_classes(&keys);
    let ghost mv = Seq::new(classes@.len(), |g: int| classes@[g]@);
    let mut names: Vec<String> = Vec::new();
    let mut g: usize = 0;
    while g < classes.len()
        invariant
            g <= classes@.len(),
            mv == Seq::new(classes@.len(), |j: int| classes@[j]@),
            is_hash_partition(mv, keys_spec),
            keys_spec == stem_keys(candidates@),
            n == candidates@.len(),
            names@.len() == g,
            forall|j: int| 0 <= j < g ==> (#[trigger] names@[j])@ == candidates@[mv[j][0] as int].normalized_stem@,
        decreases classes@.len() - g,
    {
        proof {
            assert(mv[g as int] == classes@[g as int]@);
            assert(mv[g as int].len() >= 2);
            assert(mv[g as int][0] < n);
        }
        names.push(candidates[classes[g][0]].normalized_stem.clone());
        g += 1;
    }
    let p = order_by_text(&names);
    let ghost texts = Seq::new(names@.len(), |k: int| names@[k]@);
    let mut groups: Vec<DuplicateFileGroup> = Vec::new();
    let ghost mut sm: Seq<Seq<usize>> = Seq::empty();
    let ghost mut orders: Seq<Seq<usize>> = Seq::empty();
    let ghost mut cls: Seq<int> = Seq::empty();
    // pos[q]: the step that made group q; group_of[j]: the group made at
    // step j, or -1 with a failing arrangement in fail[j].
    let ghost mut pos: Seq<int> = Seq::empty();
    let ghost mut group_of: Seq<int> = Seq::empty();
    let ghost mut fail: Seq<Seq<usize>> = Seq::empty();
    let mut k: usize = 0;
    while k < p.len()
        invariant
            k <= p@.len(),
            p@.len() == classes@.len(),
            is_permutation(p@, classes@.len() as int),
            texts == Seq::new(names@.len(), |j: int| names@[j]@),
            sorted_by_text_stable(p@, texts),
            names@.len() == classes@.len(),
            forall|j: int| 0 <= j < names@.len() ==> (#[trigger] names@[j])@ == candidates@[mv[j][0] as int].normalized_stem@,
            mv == Seq::new(classes@.len(), |j: int| classes@[j]@),
            is_hash_partition(mv, keys_spec),
            keys_spec == stem_keys(candidates@),
            sizes == candidate_sizes(candidates@),
            n == candidates@.len(),
            total_size(sizes, n as int) <= u64::MAX,
            groups@.len() == sm.len(),
            orders.len() == sm.len(),
            cls.len() == sm.len(),
            pos.len() == sm.len(),
            group_of.len() == k,
            fail.len() == k,
            forall|q: int|
                0 <= q < groups@.len() ==> built_from(#[trigger] groups@[q], Seq::empty(), orders[q], candidates@, sm[q], true),
            forall|q: int|
                0 <= q < sm.len() ==> 0 <= #[trigger] cls[q] < mv.len() && sorted_class(sm[q], mv[cls[q]], sizes)
                    && within_delta(sizes[sm[q][0] as int], sizes[sm[q][sm[q].len() - 1] as int]),
            forall|q: int| 0 <= q < cls.len() ==> 0 <= #[trigger] pos[q] < k && cls[q] == p@[pos[q]] as int,
            forall|q1: int, q2: int| 0 <= q1 < q2 < cls.len() ==> #[trigger] pos[q1] < #[trigger] pos[q2],
            forall|j: int|
                0 <= j < k ==> (0 <= #[trigger] group_of[j] < cls.len() && cls[group_of[j]] == p@[j] as int) || (
                group_of[j] == -1 && sorted_class(fail[j], mv[p@[j] as int], sizes) && !within_delta(
                    sizes[fail[j][0] as int],
                    sizes[fail[j][fail[j].len() - 1] as int],
                )),
        decreases p@.len() - k,
    {
        let c = p[k];
        proof {
            assert(mv[c as int] == classes@[c as int]@);
        }
        let class = &classes[c];
        proof {
            assert forall|a: int| 0 <= a < class@.len() implies (#[trigger] class@[a]) < candidates@.len() by {
                assert(mv[c as int][a] < keys_spec.len());
            }
            assert forall|a: int, b: int| 0 <= a < b < class@.len() implies (#[trigger] class@[a]) < (#[trigger] class@[b]) by {
                assert(mv[c as int][a] < mv[c as int][b]);
            }
        }
        let sorted = sort_class_by_size(candidates, class);
        proof {
            assert(class@.len() >= 2);
            assert(sorted@.len() >= 2);
        }
        let smallest = candidates[sorted[0]].size_bytes;
        let largest = candidates[sorted[sorted.len() - 1]].size_bytes;
        if within_suspected_delta(smallest, largest) {
            proof {
                assert(crate::v2::duplicate_scan::distinct_below(sorted@, n as int));
            }
            let built = build_group(candidates, &sorted, true);
            let BuiltGroup { group, backend_entries, order } = built;
            let ghost old_groups = groups@;
            groups.push(group);
            proof {
                let q_new = cls.len() as int;
                sm = sm.push(sorted@);
                orders = orders.push(order@);
                cls = cls.push(c as int);
                pos = pos.push(k as int);
                group_of = group_of.push(q_new);
                fail = fail.push(Seq::empty());
                assert forall|q: int| 0 <= q < groups@.len() implies built_from(#[trigger] groups@[q], Seq::empty(), orders[q], candidates@, sm[q], true) by {
                    if q < old_groups.len() {
                        assert(groups@[q] == old_groups[q]);
                    }
                }
            }
        } else {
            proof {
                group_of = group_of.push(-1);
                fail = fail.push(sorted@);
            }
        }
        k += 1;
    }
    proof {
        assert forall|g1: int, g2: int|
            0 <= g1 < g2 < sm.len() implies lex_lt(
                candidates@[mv[#[trigger] cls[g1]][0] as int].normalized_stem@,
                candidates@[mv[#[trigger] cls[g2]][0] as int].normalized_stem@,
            ) by {
            let j1 = pos[g1];
            let j2 = pos[g2];
            assert(j1 < j2);
            let c1 = p@[j1] as int;
            let c2 = p@[j2] as int;
            assert(texts[c1] == names@[c1]@);
            assert(texts[c2] == names@[c2]@);
            if c1 < c2 {
                assert(keys_spec[mv[c1][0] as int] != keys_spec[mv[c2][0] as int]);
            } else {
                assert(keys_spec[mv[c2][0] as int] != keys_spec[mv[c1][0] as int]);
            }
            assert(mv[c1][0] < n);
            assert(mv[c2][0] < n);
            assert(same_hash(keys_spec, mv[c1][0] as int, mv[c1][0] as int));
            assert(same_hash(keys_spec, mv[c2][0] as int, mv[c2][0] as int));
        }
        assert forall|c: int| 0 <= c < mv.len() implies #[trigger] class_handled(cls, mv, c, candidate_sizes(candidates@)) by {
            lemma_permutation_onto(p@, classes@.len() as int, c);
            let j = choose|j: int| 0 <= j < p@.len() && p@[j] == c;
            if group_of[j] >= 0 {
                let g = group_of[j];
                assert(cls[g] == c);
            } else {
                let s = fail[j];
                assert(sorted_class(s, mv[c], sizes));
            }
        }
    }
    SuspectedGroups {
        groups,
        members: Ghost(sm),
        orders: Ghost(orders),
        classes: Ghost(cls),
        partition: Ghost(mv),
    }
}

/// Some partition into stem classes and arrangement by size make `groups`
/// the suspected groups of the candidates (see `suspected_groups_of`).
pub open spec fn are_suspected_groups(groups: Seq<DuplicateFileGroup>, candidates: Seq<CandidateFile>) -> bool {
    exists|sm: Seq<Seq<usize>>, orders: Seq<Seq<usize>>, cls: Seq<int>, m: Seq<Seq<usize>>|
        #[trigger] suspected_groups_of(groups, sm, orders, cls, m, candidates)
}

/// A copy counts toward `which`: every copy (0), copies on the C drive (1),
/// or copies on other drives (2).
pub open spec fn counts_toward(f: DuplicateFileEntry, which: int) -> bool {
    which == 0 || (which == 1 && is_c_drive_label(f.drive@)) || (which == 2 && !is_c_drive_label(f.drive@))
}

/// Bytes of the copies among `files[..n]` recommended for cleaning that
/// count toward `which`.
pub open spec fn clean_bytes(files: Seq<DuplicateFileEntry>, n: int, which: int) -> int
    decreases n,
{
    if n <= 0 {
        0
    } else {
        clean_bytes(files, n - 1, which) + if files[n - 1].recommended_action == DuplicateRecommendedAction::Clean
            && counts_toward(files[n - 1], which) {
            files[n - 1].size_bytes as int
        } else {
            0
        }
    }
}

/// Bytes recommended for cleaning over all groups, toward `which`.
pub open spec fn groups_clean_bytes(gs: Seq<DuplicateFileGroup>, which: int) -> int
    decreases gs.len(),
{
    if gs.len() == 0 {
        0
    } else {
        groups_clean_bytes(gs.drop_last(), which) + clean_bytes(gs.last().files@, gs.last().files@.len() as int, which)
    }
}

proof fn lemma_clean_bytes_split(files: Seq<DuplicateFileEntry>, n: int)
    ensures
        clean_bytes(files, n, 0) == clean_bytes(files, n, 1) + clean_bytes(files, n, 2),
        0 <= clean_bytes(files, n, 1),
        0 <= clean_bytes(files, n, 2),
        clean_bytes(files, n, 0) <= size_sum(files, n),
    decreases n,
{
    if n > 0 {
        lemma_clean_bytes_split(files, n - 1);
    }
}

/// The reclaimable bytes on the C drive and on other drives add up to the
/// reclaimable total.
pub proof fn law_reclaimable_split(groups: Seq<DuplicateFileGroup>)
    ensures
        groups_clean_bytes(groups, 0) == groups_clean_bytes(groups, 1) + groups_clean_bytes(groups, 2),
        groups_clean_bytes(groups, 1) >= 0,
        groups_clean_bytes(groups, 2) >= 0,
    decreases groups.len(),
{
    if groups.len() > 0 {
        law_reclaimable_split(groups.drop_last());
        lemma_clean_bytes_split(groups.last().files@, groups.last().files@.len() as int);
    }
}

/// The bytes recommended for cleaning over all groups: in total, on the C
/// drive, and on other drives.
pub fn reclaimable_totals(groups: &Vec<DuplicateFileGroup>) -> (r: (u64, u64, u64))
    requires
        groups_clean_bytes(groups@, 0) <= u64::MAX,
    ensures
        r.0 == groups_clean_bytes(groups@, 0),
        r.1 == groups_clean_bytes(groups@, 1),
        r.2 == groups_clean_bytes(groups@, 2),
{
    let mut total: u64 = 0;
    let mut c_drive: u64 = 0;
    let mut other: u64 = 0;
    let mut g: usize = 0;
    while g < groups.len()
        invariant
            g <= groups@.len(),
            groups_clean_bytes(groups@, 0) <= u64::MAX,
            total == groups_clean_bytes(groups@.take(g as int), 0),
            c_drive == groups_clean_bytes(groups@.take(g as int), 1),
            other == groups_clean_bytes(groups@.take(g as int), 2),
        decreases groups@.len() - g,
    {
        let files = &groups[g].files;
        let ghost before = groups@.take(g as int);
        proof {
            assert(groups@.take(g + 1).drop_last() =~= before);
            lemma_groups_clean_prefix(groups@, g + 1);
            law_reclaimable_split(groups@.take(g + 1));
        }
        let mut i: usize = 0;
        while i < files.len()
            invariant
                i <= files@.len(),
                g < groups@.len(),
                files@ == groups@[g as int].files@,
                groups_clean_bytes(groups@.take(g + 1), 0) <= u64::MAX,
                groups@.take(g + 1).drop_last() == before,
                groups@.take(g + 1).last() == groups@[g as int],
                total == groups_clean_bytes(before, 0) + clean_bytes(files@, i as int, 0),
                c_drive == groups_clean_bytes(before, 1) + clean_bytes(files@, i as int, 1),
                other == groups_clean_bytes(before, 2) + clean_bytes(files@, i as int, 2),
                groups_clean_bytes(before, 1) >= 0,
                groups_clean_bytes(before, 2) >= 0,
            decreases files@.len() - i,
        {
            proof {
                lemma_clean_prefix_le(files@, i + 1, files@.len() as int);
                lemma_clean_bytes_split(files@, i + 1);
                law_reclaimable_split(before);
            }
            let f = &files[i];
            if f.recommended_action == DuplicateRecommendedAction::Clean {
                total = total + f.size_bytes;
                if drive_is_c(f.drive.as_str()) {
                    c_drive = c_drive + f.size_bytes;
                } else {
                    other = other + f.size_bytes;
                }
            }
            i += 1;
        }
        g += 1;
    }
    proof {
        assert(groups@.take(groups@.len() as int) =~= groups@);
    }
    (total, c_drive, other)
}

proof fn lemma_clean_prefix_le(files: Seq<DuplicateFileEntry>, a: int, b: int)
    requires
        0 <= a <= b,
    ensures
        clean_bytes(files, a, 0) <= clean_bytes(files, b, 0),
    decreases b - a,
{
    if a < b {
        lemma_clean_prefix_le(files, a, b - 1);
    }
}

proof fn lemma_groups_clean_prefix(gs: Seq<DuplicateFileGroup>, g: int)
    requires
        0 <= g <= gs.len(),
    ensures
        groups_clean_bytes(gs.take(g), 0) <= groups_clean_bytes(gs, 0),
    decreases gs.len() - g,
{
    if g < gs.len() {
        lemma_groups_clean_prefix(gs, g + 1);
        assert(gs.take(g + 1).drop_last() =~= gs.take(g));
        lemma_clean_bytes_split(gs.take(g + 1).last().files@, gs.take(g + 1).last().files@.len() as int);
        law_reclaimable_split(gs.take(g + 1));
    } else {
        assert(gs.take(g) =~= gs);
    }
}

/// A copy of a group.
pub fn copy_group(g: &DuplicateFileGroup) -> (r: DuplicateFileGroup)
    ensures
        r.group_id == g.group_id,
        r.strict_duplicate == g.strict_duplicate,
        r.total_bytes == g.total_bytes,
        r.reclaimable_bytes == g.reclaimable_bytes,
        r.files@ == g.files@,
        r.recommended_selection_reason == g.recommended_selection_reason,
{
    let mut files: Vec<DuplicateFileEntry> = Vec::new();
    let mut i: usize = 0;
    while i < g.files.len()
        invariant
            i <= g.files@.len(),
            files@ == g.files@.take(i as int),
        decreases g.files@.len() - i,
    {
        files.push(copy_entry(&g.files[i]));
        proof {
            assert(g.files@.take(i + 1) =~= g.files@.take(i as int).push(g.files@[i as int]));
        }
        i += 1;
    }
    assert(g.files@.take(g.files@.len() as int) =~= g.files@);
    DuplicateFileGroup {
        group_id: g.group_id.clone(),
        strict_duplicate: g.strict_duplicate,
        total_bytes: g.total_bytes,
        reclaimable_bytes: g.reclaimable_bytes,
        files: files,
        recommended_selection_reason: g.recommended_selection_reason.clone(),
    }
}

/// The registry entries of the groups, one group after the other.
pub open spec fn flatten_entries(bs: Seq<Vec<DuplicateBackendEntry>>) -> Seq<DuplicateBackendEntry>
    decreases bs.len(),
{
    if bs.len() == 0 {
        Seq::empty()
    } else {
        flatten_entries(bs.drop_last()) + bs.last()@
    }
}

/// The result of a duplicate scan: the report, and the registry entries of
/// the copies of its strict groups.
pub struct DuplicateScanOutcome {
    pub report: DuplicateScanReport,
    pub backend_entries: Vec<DuplicateBackendEntry>,
}

proof fn lemma_sizes_kept(old_files: Seq<DuplicateFileEntry>, new_files: Seq<DuplicateFileEntry>, n: int)
    requires
        0 <= n <= old_files.len(),
        old_files.len() == new_files.len(),
        forall|i: int| 0 <= i < old_files.len() ==> same_entry_except_choice(#[trigger] old_files[i], new_files[i]),
    ensures
        size_sum(old_files, n) == size_sum(new_files, n),
    decreases n,
{
    if n > 0 {
        lemma_sizes_kept(old_files, new_files, n - 1);
        assert(same_entry_except_choice(old_files[n - 1], new_files[n - 1]));
    }
}

proof fn lemma_clean_within_total(old_gs: Seq<DuplicateFileGroup>, new_gs: Seq<DuplicateFileGroup>)
    requires
        old_gs.len() == new_gs.len(),
        forall|g: int| 0 <= g < old_gs.len() ==> recommendation_applied(#[trigger] old_gs[g], new_gs[g]),
        forall|g: int|
            0 <= g < old_gs.len() ==> size_sum((#[trigger] old_gs[g]).files@, old_gs[g].files@.len() as int)
                == old_gs[g].total_bytes,
    ensures
        groups_clean_bytes(new_gs, 0) <= groups_bytes(old_gs),
    decreases old_gs.len(),
{
    if old_gs.len() > 0 {
        let k = old_gs.len() - 1;
        lemma_clean_within_total(old_gs.drop_last(), new_gs.drop_last());
        assert(recommendation_applied(old_gs[k], new_gs[k]));
        lemma_sizes_kept(old_gs[k].files@, new_gs[k].files@, old_gs[k].files@.len() as int);
        lemma_clean_bytes_split(new_gs[k].files@, new_gs[k].files@.len() as int);
    }
}

impl DuplicateScanCollector {
    /// Finishes the scan: applies the keep/clean recommendations to the
    /// strict groups, adds the suspected groups when the request asks for
    /// them, and totals the reclaimable bytes.
    pub fn finish(self) -> (r: DuplicateScanOutcome)
        requires
            self.strict_groups_built(),
            groups_bytes(self.strict_groups@) <= u64::MAX,
            total_size(candidate_sizes(self.candidates@), self.candidates@.len() as int) <= u64::MAX,
        ensures
            r.report.strict_groups@.len() == self.strict_groups@.len(),
            forall|g: int|
                0 <= g < self.strict_groups@.len() ==> recommendation_applied(
                    #[trigger] self.strict_groups@[g],
                    r.report.strict_groups@[g],
                ),
            self.request.include_suspected ==> are_suspected_groups(r.report.suspected_groups@, self.candidates@),
            !self.request.include_suspected ==> r.report.suspected_groups@.len() == 0,
            r.report.scanned_files == self.scanned_files,
            r.report.skipped_locations == self.skipped_locations,
            r.report.total_reclaimable_bytes == groups_clean_bytes(r.report.strict_groups@, 0),
            r.report.c_drive_reclaimable_bytes == groups_clean_bytes(r.report.strict_groups@, 1),
            r.report.other_drive_reclaimable_bytes == groups_clean_bytes(r.report.strict_groups@, 2),
            r.backend_entries@ == flatten_entries(self.strict_backend_entries@),
    {
        let mut strict: Vec<DuplicateFileGroup> = Vec::new();
        let mut g: usize = 0;
        while g < self.strict_groups.len()
            invariant
                g <= self.strict_groups@.len(),
                self.strict_groups_built(),
                strict@.len() == g,
                forall|q: int| 0 <= q < g ==> recommendation_applied(#[trigger] self.strict_groups@[q], strict@[q]),
            decreases self.strict_groups@.len() - g,
        {
            let mut group = copy_group(&self.strict_groups[g]);
            proof {
                assert(built_from(self.strict_groups@[g as int], self.strict_backend_entries@[g as int]@,
                    self.strict_orders@[g as int], self.candidates@, self.strict_members@[g as int], false));
            }
            let ghost copied = group;
            apply_duplicate_recommendations(&mut group, &self.request.protected_paths);
            proof {
                assert(recommendation_applied(copied, group));
                assert(recommendation_applied(self.strict_groups@[g as int], group));
            }
            strict.push(group);
            g += 1;
        }
        proof {
            assert forall|q: int|
                0 <= q < self.strict_groups@.len() implies size_sum((#[trigger] self.strict_groups@[q]).files@, self.strict_groups@[q].files@.len() as int)
                    == self.strict_groups@[q].total_bytes by {
                assert(built_from(self.strict_groups@[q], self.strict_backend_entries@[q]@,
                    self.strict_orders@[q], self.candidates@, self.strict_members@[q], false));
            }
            lemma_clean_within_total(self.strict_groups@, strict@);
        }
        let suspected = if self.request.include_suspected {
            let found = suspected_duplicate_groups(&self.candidates);
            proof {
                assert(suspected_groups_of(found.groups@, found.members@, found.orders@, found.classes@, found.partition@, self.candidates@));
            }
            found.groups
        } else {
            Vec::new()
        };
        let (total, c_drive, other) = reclaimable_totals(&strict);
        let mut backend: Vec<DuplicateBackendEntry> = Vec::new();
        let mut b: usize = 0;
        while b < self.strict_backend_entries.len()
            invariant
                b <= self.strict_backend_entries@.len(),
                backend@ == flatten_entries(self.strict_backend_entries@.take(b as int)),
            decreases self.strict_backend_entries@.len() - b,
        {
            let part = &self.strict_backend_entries[b];
            let ghost before = backend@;
            let mut e: usize = 0;
            while e < part.len()
                invariant
                    e <= part@.len(),
                    backend@ == before + part@.take(e as int),
                decreases part@.len() - e,
            {
                backend.push(copy_backend_entry(&part[e]));
                proof {
                    assert(part@.take(e + 1) =~= part@.take(e as int).push(part@[e as int]));
                    assert(backend@ =~= before + part@.take(e + 1));
                }
                e += 1;
            }
            proof {
                assert(part@.take(part@.len() as int) =~= part@);
                assert(self.strict_backend_entries@.take(b + 1).drop_last() =~= self.strict_backend_entries@.take(b as int));
            }
            b += 1;
        }
        proof {
            assert(self.strict_backend_entries@.take(self.strict_backend_entries@.len() as int) =~= self.strict_backend_entries@);
        }
        DuplicateScanOutcome {
            report: DuplicateScanReport {
                strict_groups: strict,
                suspected_groups: suspected,
                scanned_files: self.scanned_files,
                skipped_locations: self.skipped_locations,
                total_reclaimable_bytes: total,
                c_drive_reclaimable_bytes: c_drive,
                other_drive_reclaimable_bytes: other,
            },
            backend_entries: backend,
        }
    }
}

} // verus!
