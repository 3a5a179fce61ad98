//! Building duplicate groups: strict groups from files of equal size and
//! content hash, suspected groups from files of equal normalized name.
use vstd::prelude::*;

use crate::ids::new_identifier;
use crate::order::{is_permutation, lemma_permutation_onto, order_by_text, sorted_by_text_stable};
use crate::text::{concat_str, decimal, decimal_string, lemma_lex_irreflexive, lex_le, lex_lt};
use crate::v2::duplicate::DuplicateBackendEntry;
use crate::order::order_by_key;
use crate::v2::duplicate_scan::{
    candidate_sizes, distinct_below, lemma_sum_over_le_total, sum_over, total_size, CandidateFile,
    DuplicateScanCollector,
};
use crate::v2::duplicate::{progress_payload, size_sum};
use crate::v2::duplicate_scan::{scan_percent, scan_progress_percent};
use crate::v2::models::{
    DuplicateFileEntry, DuplicateFileGroup, DuplicateRecommendedAction, OperationModule,
    OperationProgressPayload,
};

verus! {

/// The content hashes as plain sequences (`None` where no hash was taken).
pub open spec fn hash_views(h: Seq<Option<String>>) -> Seq<Option<Seq<char>>> {
    Seq::new(
        h.len(),
        |i: int|
            match h[i] {
                Some(s) => Some(s@),
                None => None,
            },
    )
}

/// Positions `x` and `y` carry the same content hash.
pub open spec fn same_hash(h: Seq<Option<Seq<char>>>, x: int, y: int) -> bool {
    h[x] is Some && h[x] == h[y]
}

/// Some other position carries the same hash as `x`.
pub open spec fn has_partner(h: Seq<Option<Seq<char>>>, x: int) -> bool {
    exists|y: int| 0 <= y < h.len() && y != x && #[trigger] same_hash(h, x, y)
}

/// `m` splits the hashed positions of `h` into its classes of equal hash
/// that have at least two members: each class is increasing, all its
/// members share one hash, classes have distinct hashes, and any two
/// positions with the same hash lie in one class.
pub open spec fn is_hash_partition(m: Seq<Seq<usize>>, h: Seq<Option<Seq<char>>>) -> bool {
    &&& forall|g: int| 0 <= g < m.len() ==> (#[trigger] m[g]).len() >= 2
    &&& forall|g: int, a: int|
        0 <= g < m.len() && 0 <= a < m[g].len() ==> (#[trigger] m[g][a]) < h.len()
            && same_hash(h, m[g][0] as int, m[g][a] as int)
    &&& forall|g: int, a: int, b: int|
        0 <= g < m.len() && 0 <= a < b < m[g].len() ==> (#[trigger] m[g][a]) < (#[trigger] m[g][b])
    &&& forall|g1: int, g2: int|
        0 <= g1 < g2 < m.len() ==> h[(#[trigger] m[g1])[0] as int] != h[(#[trigger] m[g2])[0] as int]
    &&& forall|x: int, y: int|
        0 <= x < h.len() && 0 <= y < h.len() && x != y && #[trigger] same_hash(h, x, y) ==> exists|g: int|
            0 <= g < m.len() && (#[trigger] m[g]).contains(x as usize) && m[g].contains(y as usize)
}

/// Sizes as keys that are always present (a size as a run of that many
/// marks), so that classes of equal size are classes of equal key.
pub open spec fn size_keys(sizes: Seq<u64>) -> Seq<Option<Seq<char>>> {
    Seq::new(sizes.len(), |i: int| Some(Seq::new(sizes[i] as nat, |j: int| '#')))
}

fn same_hash_exec(hashes: &Vec<Option<String>>, x: usize, y: usize) -> (r: bool)
    requires
        x < hashes@.len(),
        y < hashes@.len(),
    ensures
        r == same_hash(hash_views(hashes@), x as int, y as int),
{
    match (&hashes[x], &hashes[y]) {
        (Some(a), Some(b)) => *a == *b,
        _ => false,
    }
}

/// The classes of equal content hash among `hashes` with at least two
/// members, in order of their first position.
pub fn hash_classes(hashes: &Vec<Option<String>>) -> (m: Vec<Vec<usize>>)
    ensures
        is_hash_partition(Seq::new(m@.len(), |g: int| m@[g]@), hash_views(hashes@)),
        forall|g1: int, g2: int|
            0 <= g1 < g2 < m@.len() ==> (#[trigger] m@[g1])@[0] < (#[trigger] m@[g2])@[0],
{
    let n = hashes.len();
    let ghost h = hash_views(hashes@);
    let mut assigned: Vec<bool> = Vec::new();
    let mut k: usize = 0;
    while k < n
        invariant
            n == hashes@.len(),
            k <= n,
            assigned@.len() == k,
            forall|x: int| 0 <= x < k ==> !(#[trigger] assigned@[x]),
        decreases n - k,
    {
        assigned.push(false);
        k += 1;
    }
    let mut m: Vec<Vec<usize>> = Vec::new();
    let mut p: usize = 0;
    while p < n
        invariant
            n == hashes@.len(),
            h == hash_views(hashes@),
            h.len() == n,
            p <= n,
            assigned@.len() == n,
            forall|x: int|
                0 <= x < n ==> (#[trigger] assigned@[x] <==> (h[x] is Some && exists|y: int|
                    0 <= y < p && #[trigger] h[y] == h[x])),
            forall|g: int| 0 <= g < m@.len() ==> (#[trigger] m@[g])@.len() >= 2,
            forall|g: int, a: int|
                0 <= g < m@.len() && 0 <= a < m@[g]@.len() ==> (#[trigger] m@[g]@[a]) < n
                    && same_hash(h, m@[g]@[0] as int, m@[g]@[a] as int),
            forall|g: int, a: int, b: int|
                0 <= g < m@.len() && 0 <= a < b < m@[g]@.len() ==> (#[trigger] m@[g]@[a])
                    < (#[trigger] m@[g]@[b]),
            forall|g: int| 0 <= g < m@.len() ==> (#[trigger] m@[g])@[0] < p,
            forall|g1: int, g2: int|
                0 <= g1 < g2 < m@.len() ==> (#[trigger] m@[g1])@[0] < (#[trigger] m@[g2])@[0],
            forall|g: int, x: int|
                0 <= g < m@.len() && 0 <= x < n && #[trigger] same_hash(h, (#[trigger] m@[g])@[0] as int, x)
                    ==> m@[g]@.contains(x as usize),
            forall|x: int|
                0 <= x < p && #[trigger] has_partner(h, x)
                    ==> exists|g: int| 0 <= g < m@.len() && (#[trigger] m@[g])@.contains(x as usize),
        decreases n - p,
    {
        if !assigned[p] && hashes[p].is_some() {
            proof {
                assert(h[p as int] is Some);
                assert forall|y: int| 0 <= y < p implies #[trigger] h[y] != h[p as int] by {
                    if h[y] == h[p as int] {
                        assert(assigned@[p as int]);
                    }
                }
            }
            let mut class: Vec<usize> = Vec::new();
            class.push(p);
            assigned.set(p, true);
            assert(class@[0] == p);
            assert(class@.contains(p));
            let mut q: usize = p + 1;
            while q < n
                invariant
                    n == hashes@.len(),
                    h == hash_views(hashes@),
                    h.len() == n,
                    p < q <= n,
                    h[p as int] is Some,
                    assigned@.len() == n,
                    forall|y: int| 0 <= y < p ==> #[trigger] h[y] != h[p as int],
                    forall|x: int|
                        0 <= x < n ==> (#[trigger] assigned@[x] <==> (h[x] is Some && ((exists|y: int|
                            0 <= y < p && #[trigger] h[y] == h[x]) || (p <= x < q && h[x] == h[p as int])))),
                    class@.len() >= 1,
                    class@[0] == p,
                    forall|a: int| 0 <= a < class@.len() ==> (#[trigger] class@[a]) < q
                        && same_hash(h, p as int, class@[a] as int),
                    forall|a: int, b: int| 0 <= a < b < class@.len() ==> (#[trigger] class@[a]) < (#[trigger] class@[b]),
                    forall|x: int| p <= x < q && #[trigger] same_hash(h, p as int, x) ==> class@.contains(x as usize),
                decreases n - q,
            {
                if !assigned[q] && same_hash_exec(hashes, p, q) {
                    let ghost old_class = class@;
                    class.push(q);
                    assigned.set(q, true);
                    proof {
                        assert(class@.last() == q);
                        assert forall|x: int| p <= x < q + 1 && #[trigger] same_hash(h, p as int, x) implies class@.contains(x as usize) by {
                            if x < q {
                                let a = choose|a: int| 0 <= a < old_class.len() && old_class[a] == x as usize;
                                assert(class@[a] == x as usize);
                            } else {
                                assert(class@[class@.len() - 1] == x as usize);
                            }
                        }
                    }
                } else {
                    proof {
                        if same_hash(h, p as int, q as int) {
                            assert(assigned@[q as int]);
                            let y = choose|y: int| 0 <= y < p && #[trigger] h[y] == h[q as int];
                            assert(h[y] == h[p as int]);
                        }
                    }
                }
                q += 1;
            }
            let ghost m_before = m@;
            if class.len() >= 2 {
                let ghost old_m = m@;
                m.push(class);
                proof {
                    assert forall|g: int, x: int|
                        0 <= g < m@.len() && 0 <= x < n && #[trigger] same_hash(h, (#[trigger] m@[g])@[0] as int, x)
                            implies m@[g]@.contains(x as usize) by {
                        if g < old_m.len() {
                            assert(m@[g] == old_m[g]);
                        } else {
                            if x < p {
                                assert(h[x] == h[p as int]);
                            }
                        }
                    }
                    assert forall|g1: int, g2: int| 0 <= g1 < g2 < m@.len() implies (#[trigger] m@[g1])@[0] < (#[trigger] m@[g2])@[0] by {
                        if g2 < old_m.len() {
                            assert(m@[g1] == old_m[g1]);
                            assert(m@[g2] == old_m[g2]);
                        } else {
                            assert(m@[g1] == old_m[g1]);
                        }
                    }
                }
            } else {
                proof {
                    assert forall|y: int| 0 <= y < n && y != p implies !#[trigger] same_hash(h, p as int, y) by {
                        if same_hash(h, p as int, y) {
                            if y < p {
                                assert(h[y] == h[p as int]);
                            } else {
                                assert(class@.contains(y as usize));
                                let a = choose|a: int| 0 <= a < class@.len() && class@[a] == y as usize;
                                assert(a == 0);
                            }
                        }
                    }
                }
            }
            proof {
                assert forall|x: int|
                    0 <= x < p + 1 && #[trigger] has_partner(h, x)
                        implies exists|g: int| 0 <= g < m@.len() && (#[trigger] m@[g])@.contains(x as usize) by {
                    if x == p {
                        let y = choose|y: int| 0 <= y < h.len() && y != x && #[trigger] same_hash(h, x, y);
                        assert(same_hash(h, p as int, y));
                        let g = m@.len() - 1;
                        assert(m@[g]@[0] == p);
                        assert(m@[g]@.contains(p));
                    } else {
                        let g = choose|g: int| 0 <= g < m_before.len() && (#[trigger] m_before[g])@.contains(x as usize);
                        assert(m@[g] == m_before[g]);
                    }
                }
                assert forall|x: int|
                    0 <= x < n implies (#[trigger] assigned@[x] <==> (h[x] is Some && exists|y: int|
                        0 <= y < p + 1 && #[trigger] h[y] == h[x])) by {
                    if h[x] is Some && h[x] == h[p as int] {
                        assert(h[p as int] == h[x]);
                    }
                }
            }
        } else {
            proof {
                assert forall|x: int|
                    0 <= x < n implies (#[trigger] assigned@[x] <==> (h[x] is Some && exists|y: int|
                        0 <= y < p + 1 && #[trigger] h[y] == h[x])) by {
                    if h[x] is Some && h[p as int] == h[x] {
                        if h[p as int] is Some {
                            let y = choose|y: int| 0 <= y < p && #[trigger] h[y] == h[p as int];
                            assert(h[y] == h[x]);
                        }
                    }
                }
                assert forall|x: int|
                    0 <= x < p + 1 && #[trigger] has_partner(h, x)
                        implies exists|g: int| 0 <= g < m@.len() && (#[trigger] m@[g])@.contains(x as usize) by {
                    if x == p {
                        let y = choose|y: int| 0 <= y < h.len() && y != x && #[trigger] same_hash(h, x, y);
                        assert(h[p as int] is Some);
                        assert(assigned@[p as int]);
                        let y0 = choose|y: int| 0 <= y < p && #[trigger] h[y] == h[p as int];
                        assert(same_hash(h, y0, p as int));
                        assert(has_partner(h, y0));
                        let g = choose|g: int| 0 <= g < m@.len() && (#[trigger] m@[g])@.contains(y0 as usize);
                        let a = choose|a: int| 0 <= a < m@[g]@.len() && m@[g]@[a] == y0 as usize;
                        assert(same_hash(h, m@[g]@[0] as int, m@[g]@[a] as int));
                        assert(same_hash(h, m@[g]@[0] as int, p as int));
                    }
                }
            }
        }
        p += 1;
    }
    let ghost mv = Seq::new(m@.len(), |g: int| m@[g]@);
    proof {
        assert forall|x: int, y: int|
            0 <= x < h.len() && 0 <= y < h.len() && x != y && #[trigger] same_hash(h, x, y) implies exists|g: int|
                0 <= g < mv.len() && (#[trigger] mv[g]).contains(x as usize) && mv[g].contains(y as usize) by {
            assert(has_partner(h, x));
            let g = choose|g: int| 0 <= g < m@.len() && (#[trigger] m@[g])@.contains(x as usize);
            let a = choose|a: int| 0 <= a < m@[g]@.len() && m@[g]@[a] == x as usize;
            assert(same_hash(h, m@[g]@[0] as int, x));
            assert(same_hash(h, m@[g]@[0] as int, y));
            assert(mv[g] == m@[g]@);
        }
        assert forall|g1: int, g2: int|
            0 <= g1 < g2 < mv.len() implies h[(#[trigger] mv[g1])[0] as int] != h[(#[trigger] mv[g2])[0] as int] by {
            if h[mv[g1][0] as int] == h[mv[g2][0] as int] {
                assert(same_hash(h, m@[g1]@[0] as int, m@[g1]@[0] as int));
                assert(mv[g1] == m@[g1]@ && mv[g2] == m@[g2]@);
                assert(same_hash(h, m@[g2]@[0] as int, m@[g2]@[0] as int));
                assert(same_hash(h, m@[g2]@[0] as int, m@[g1]@[0] as int));
                assert(m@[g2]@.contains(m@[g1]@[0]));
                let a = choose|a: int| 0 <= a < m@[g2]@.len() && m@[g2]@[a] == m@[g1]@[0];
                assert(m@[g1]@[0] < m@[g2]@[0]);
                if a > 0 {
                    assert(m@[g2]@[0] < m@[g2]@[a]);
                }
            }
        }
    }
    m
}

/// The classes of equal size among `sizes` with at least two members, in
/// order of their first position.
pub fn size_classes(sizes: &Vec<u64>) -> (m: Vec<Vec<usize>>)
    ensures
        is_hash_partition(Seq::new(m@.len(), |g: int| m@[g]@), size_keys(sizes@)),
        forall|g1: int, g2: int|
            0 <= g1 < g2 < m@.len() ==> (#[trigger] m@[g1])@[0] < (#[trigger] m@[g2])@[0],
{
    let n = sizes.len();
    let ghost h = size_keys(sizes@);
    let mut assigned: Vec<bool> = Vec::new();
    let mut k: usize = 0;
    while k < n
        invariant
            n == sizes@.len(),
            k <= n,
            assigned@.len() == k,
            forall|x: int| 0 <= x < k ==> !(#[trigger] assigned@[x]),
        decreases n - k,
    {
        assigned.push(false);
        k += 1;
    }
    let mut m: Vec<Vec<usize>> = Vec::new();
    let mut p: usize = 0;
    while p < n
        invariant
            n == sizes@.len(),
            h == size_keys(sizes@),
            h.len() == n,
            p <= n,
            assigned@.len() == n,
            forall|x: int|
                0 <= x < n ==> (#[trigger] assigned@[x] <==> (h[x] is Some && exists|y: int|
                    0 <= y < p && #[trigger] h[y] == h[x])),
            forall|g: int| 0 <= g < m@.len() ==> (#[trigger] m@[g])@.len() >= 2,
            forall|g: int, a: int|
                0 <= g < m@.len() && 0 <= a < m@[g]@.len() ==> (#[trigger] m@[g]@[a]) < n
                    && same_hash(h, m@[g]@[0] as int, m@[g]@[a] as int),
            forall|g: int, a: int, b: int|
                0 <= g < m@.len() && 0 <= a < b < m@[g]@.len() ==> (#[trigger] m@[g]@[a])
                    < (#[trigger] m@[g]@[b]),
            forall|g: int| 0 <= g < m@.len() ==> (#[trigger] m@[g])@[0] < p,
            forall|g1: int, g2: int|
                0 <= g1 < g2 < m@.len() ==> (#[trigger] m@[g1])@[0] < (#[trigger] m@[g2])@[0],
            forall|g: int, x: int|
                0 <= g < m@.len() && 0 <= x < n && #[trigger] same_hash(h, (#[trigger] m@[g])@[0] as int, x)
                    ==> m@[g]@.contains(x as usize),
            forall|x: int|
                0 <= x < p && #[trigger] has_partner(h, x)
                    ==> exists|g: int| 0 <= g < m@.len() && (#[trigger] m@[g])@.contains(x as usize),
        decreases n - p,
    {
        if !assigned[p] {
            proof {
                assert(h[p as int] is Some);
                assert forall|y: int| 0 <= y < p implies #[trigger] h[y] != h[p as int] by {
                    if h[y] == h[p as int] {
                        assert(assigned@[p as int]);
                    }
                }
            }
            let mut class: Vec<usize> = Vec::new();
            class.push(p);
            assigned.set(p, true);
            assert(class@[0] == p);
            assert(class@.contains(p));
            let mut q: usize = p + 1;
            while q < n
                invariant
                    n == sizes@.len(),
                    h == size_keys(sizes@),
                    h.len() == n,
                    p < q <= n,
                    h[p as int] is Some,
                    assigned@.len() == n,
                    forall|y: int| 0 <= y < p ==> #[trigger] h[y] != h[p as int],
                    forall|x: int|
                        0 <= x < n ==> (#[trigger] assigned@[x] <==> (h[x] is Some && ((exists|y: int|
                            0 <= y < p && #[trigger] h[y] == h[x]) || (p <= x < q && h[x] == h[p as int])))),
                    class@.len() >= 1,
                    class@[0] == p,
                    forall|a: int| 0 <= a < class@.len() ==> (#[trigger] class@[a]) < q
                        && same_hash(h, p as int, class@[a] as int),
                    forall|a: int, b: int| 0 <= a < b < class@.len() ==> (#[trigger] class@[a]) < (#[trigger] class@[b]),
                    forall|x: int| p <= x < q && #[trigger] same_hash(h, p as int, x) ==> class@.contains(x as usize),
                decreases n - q,
            {
                proof {
                    assert(same_hash(h, p as int, q as int) ==> h[p as int]->0.len() == h[q as int]->0.len());
                }
                if !assigned[q] && sizes[p] == sizes[q] {
                    let ghost old_class = class@;
                    class.push(q);
                    assigned.set(q, true);
                    proof {
                        assert(class@.last() == q);
                        assert forall|x: int| p <= x < q + 1 && #[trigger] same_hash(h, p as int, x) implies class@.contains(x as usize) by {
                            if x < q {
                                let a = choose|a: int| 0 <= a < old_class.len() && old_class[a] == x as usize;
                                assert(class@[a] == x as usize);
                            } else {
                                assert(class@[class@.len() - 1] == x as usize);
                            }
                        }
                    }
                } else {
                    proof {
                        if same_hash(h, p as int, q as int) {
                            assert(assigned@[q as int]);
                            let y = choose|y: int| 0 <= y < p && #[trigger] h[y] == h[q as int];
                            assert(h[y] == h[p as int]);
                        }
                    }
                }
                q += 1;
            }
            let ghost m_before = m@;
            if class.len() >= 2 {
                let ghost old_m = m@;
                m.push(class);
                proof {
                    assert forall|g: int, x: int|
                        0 <= g < m@.len() && 0 <= x < n && #[trigger] same_hash(h, (#[trigger] m@[g])@[0] as int, x)
                            implies m@[g]@.contains(x as usize) by {
                        if g < old_m.len() {
                            assert(m@[g] == old_m[g]);
                        } else {
                            if x < p {
                                assert(h[x] == h[p as int]);
                            }
                        }
                    }
                    assert forall|g1: int, g2: int| 0 <= g1 < g2 < m@.len() implies (#[trigger] m@[g1])@[0] < (#[trigger] m@[g2])@[0] by {
                        if g2 < old_m.len() {
                            assert(m@[g1] == old_m[g1]);
                            assert(m@[g2] == old_m[g2]);
                        } else {
                            assert(m@[g1] == old_m[g1]);
                        }
                    }
                }
            } else {
                proof {
                    assert forall|y: int| 0 <= y < n && y != p implies !#[trigger] same_hash(h, p as int, y) by {
                        if same_hash(h, p as int, y) {
                            if y < p {
                                assert(h[y] == h[p as int]);
                            } else {
                                assert(class@.contains(y as usize));
                                let a = choose|a: int| 0 <= a < class@.len() && class@[a] == y as usize;
                                assert(a == 0);
                            }
                        }
                    }
                }
            }
            proof {
                assert forall|x: int|
                    0 <= x < p + 1 && #[trigger] has_partner(h, x)
                        implies exists|g: int| 0 <= g < m@.len() && (#[trigger] m@[g])@.contains(x as usize) by {
                    if x == p {
                        let y = choose|y: int| 0 <= y < h.len() && y != x && #[trigger] same_hash(h, x, y);
                        assert(same_hash(h, p as int, y));
                        let g = m@.len() - 1;
                        assert(m@[g]@[0] == p);
                        assert(m@[g]@.contains(p));
                    } else {
                        let g = choose|g: int| 0 <= g < m_before.len() && (#[trigger] m_before[g])@.contains(x as usize);
                        assert(m@[g] == m_before[g]);
                    }
                }
                assert forall|x: int|
                    0 <= x < n implies (#[trigger] assigned@[x] <==> (h[x] is Some && exists|y: int|
                        0 <= y < p + 1 && #[trigger] h[y] == h[x])) by {
                    if h[x] is Some && h[x] == h[p as int] {
                        assert(h[p as int] == h[x]);
                    }
                }
            }
        } else {
            proof {
                assert forall|x: int|
                    0 <= x < n implies (#[trigger] assigned@[x] <==> (h[x] is Some && exists|y: int|
                        0 <= y < p + 1 && #[trigger] h[y] == h[x])) by {
                    if h[x] is Some && h[p as int] == h[x] {
                        if h[p as int] is Some {
                            let y = choose|y: int| 0 <= y < p && #[trigger] h[y] == h[p as int];
                            assert(h[y] == h[x]);
                        }
                    }
                }
                assert forall|x: int|
                    0 <= x < p + 1 && #[trigger] has_partner(h, x)
                        implies exists|g: int| 0 <= g < m@.len() && (#[trigger] m@[g])@.contains(x as usize) by {
                    if x == p {
                        let y = choose|y: int| 0 <= y < h.len() && y != x && #[trigger] same_hash(h, x, y);
                        assert(h[p as int] is Some);
                        assert(assigned@[p as int]);
                        let y0 = choose|y: int| 0 <= y < p && #[trigger] h[y] == h[p as int];
                        assert(same_hash(h, y0, p as int));
                        assert(has_partner(h, y0));
                        let g = choose|g: int| 0 <= g < m@.len() && (#[trigger] m@[g])@.contains(y0 as usize);
                        let a = choose|a: int| 0 <= a < m@[g]@.len() && m@[g]@[a] == y0 as usize;
                        assert(same_hash(h, m@[g]@[0] as int, m@[g]@[a] as int));
                        assert(same_hash(h, m@[g]@[0] as int, p as int));
                    }
                }
            }
        }
        p += 1;
    }
    let ghost mv = Seq::new(m@.len(), |g: int| m@[g]@);
    proof {
        assert forall|x: int, y: int|
            0 <= x < h.len() && 0 <= y < h.len() && x != y && #[trigger] same_hash(h, x, y) implies exists|g: int|
                0 <= g < mv.len() && (#[trigger] mv[g]).contains(x as usize) && mv[g].contains(y as usize) by {
            assert(has_partner(h, x));
            let g = choose|g: int| 0 <= g < m@.len() && (#[trigger] m@[g])@.contains(x as usize);
            let a = choose|a: int| 0 <= a < m@[g]@.len() && m@[g]@[a] == x as usize;
            assert(same_hash(h, m@[g]@[0] as int, x));
            assert(same_hash(h, m@[g]@[0] as int, y));
            assert(mv[g] == m@[g]@);
        }
        assert forall|g1: int, g2: int|
            0 <= g1 < g2 < mv.len() implies h[(#[trigger] mv[g1])[0] as int] != h[(#[trigger] mv[g2])[0] as int] by {
            if h[mv[g1][0] as int] == h[mv[g2][0] as int] {
                assert(same_hash(h, m@[g1]@[0] as int, m@[g1]@[0] as int));
                assert(mv[g1] == m@[g1]@ && mv[g2] == m@[g2]@);
                assert(same_hash(h, m@[g2]@[0] as int, m@[g2]@[0] as int));
                assert(same_hash(h, m@[g2]@[0] as int, m@[g1]@[0] as int));
                assert(m@[g2]@.contains(m@[g1]@[0]));
                let a = choose|a: int| 0 <= a < m@[g2]@.len() && m@[g2]@[a] == m@[g1]@[0];
                assert(m@[g1]@[0] < m@[g2]@[0]);
                if a > 0 {
                    assert(m@[g2]@[0] < m@[g2]@[a]);
                }
            }
        }
    }
    m
}

/// The name shown for copy number `ordinal` of a group, in place of its
/// file name.
pub open spec fn display_name_of(suspected: bool, ordinal: nat) -> Seq<char> {
    (if suspected {
        "疑似重复 "@
    } else {
        "重复文件 "@
    }) + decimal(ordinal)
}

/// The name shown for copy number `ordinal` of a group.
pub fn anonymized_duplicate_display_name(suspected: bool, ordinal: u64) -> (r: String)
    ensures
        r@ == display_name_of(suspected, ordinal as nat),
{
    let number = decimal_string(ordinal);
    if suspected {
        concat_str("疑似重复 ", number.as_str())
    } else {
        concat_str("重复文件 ", number.as_str())
    }
}

/// `e` shows candidate `c` as the copy at position `a` of its group (shown
/// as number `a + 1`), unselected and left for manual review.
pub open spec fn shows_candidate(e: DuplicateFileEntry, c: CandidateFile, suspected: bool, a: int) -> bool {
    &&& e.display_name@ == display_name_of(suspected, (a + 1) as nat)
    &&& e.drive == c.drive
    &&& e.visible_location_hint == c.visible_location_hint
    &&& e.size_bytes == c.size_bytes
    &&& e.modified_at == c.modified_at
    &&& !e.selected
    &&& e.protected == c.protected
    &&& e.recommended_action == DuplicateRecommendedAction::ManualReview
}

/// The entry showing candidate `file` as copy number `ordinal`.
pub fn duplicate_entry(
    file: &CandidateFile,
    entry_id: String,
    fingerprint_id: String,
    suspected: bool,
    ordinal: u64,
) -> (r: DuplicateFileEntry)
    requires
        ordinal >= 1,
    ensures
        shows_candidate(r, *file, suspected, ordinal - 1),
        r.entry_id == entry_id,
        r.hash_fingerprint_id == fingerprint_id,
{
    DuplicateFileEntry {
        entry_id: entry_id,
        display_name: anonymized_duplicate_display_name(suspected, ordinal),
        drive: file.drive.clone(),
        visible_location_hint: file.visible_location_hint.clone(),
        size_bytes: file.size_bytes,
        modified_at: file.modified_at.clone(),
        hash_fingerprint_id: fingerprint_id,
        selected: false,
        protected: file.protected,
        recommended_action: DuplicateRecommendedAction::ManualReview,
    }
}

/// A copy of an entry.
pub fn copy_entry(e: &DuplicateFileEntry) -> (r: DuplicateFileEntry)
    ensures
        r == *e,
{
    DuplicateFileEntry {
        entry_id: e.entry_id.clone(),
        display_name: e.display_name.clone(),
        drive: e.drive.clone(),
        visible_location_hint: e.visible_location_hint.clone(),
        size_bytes: e.size_bytes,
        modified_at: e.modified_at.clone(),
        hash_fingerprint_id: e.hash_fingerprint_id.clone(),
        selected: e.selected,
        protected: e.protected,
        recommended_action: e.recommended_action,
    }
}

/// The candidates at the listed indices.
pub open spec fn member_candidates(candidates: Seq<CandidateFile>, members: Seq<usize>) -> Seq<CandidateFile> {
    Seq::new(members.len(), |a: int| candidates[members[a] as int])
}

/// `files` shows the members: copy `k` shows member `order[k]` (as number
/// `order[k] + 1`), every member is shown once, and the copies are ordered by
/// the shown name.
pub open spec fn group_shows(
    files: Seq<DuplicateFileEntry>,
    order: Seq<usize>,
    members: Seq<CandidateFile>,
    suspected: bool,
) -> bool {
    &&& files.len() == members.len()
    &&& is_permutation(order, members.len() as int)
    &&& forall|k: int|
        0 <= k < files.len() ==> #[trigger] shows_candidate(files[k], members[order[k] as int], suspected, order[k] as int)
    &&& forall|k: int, l: int|
        0 <= k < l < files.len() ==> lex_le((#[trigger] files[k]).display_name@, (#[trigger] files[l]).display_name@)
}

/// A group with the registry entries of its copies (none for a suspected
/// group, whose copies cannot be cleaned).
pub struct BuiltGroup {
    pub group: DuplicateFileGroup,
    pub backend_entries: Vec<DuplicateBackendEntry>,
    /// Copy `k` of the group shows member `order[k]`.
    pub order: Ghost<Seq<usize>>,
}

proof fn lemma_size_sum_remove(files: Seq<DuplicateFileEntry>, j: int)
    requires
        0 <= j < files.len(),
    ensures
        size_sum(files, files.len() as int) == size_sum(files.remove(j), files.len() - 1) + files[j].size_bytes,
    decreases files.len(),
{
    let r = files.remove(j);
    if j == files.len() - 1 {
        assert(r =~= files.drop_last());
        lemma_size_sum_prefix(files, files.len() - 1);
    } else {
        lemma_size_sum_remove(files.drop_last(), j);
        assert(files.drop_last().remove(j) =~= r.drop_last());
        lemma_size_sum_prefix(files, files.len() - 1);
        lemma_size_sum_prefix(r, r.len() - 1);
        lemma_size_sum_prefix(files.drop_last().remove(j), files.len() - 2);
        assert(r[r.len() - 1] == files[files.len() - 1]);
    }
}

/// The sum over the first `n` entries only looks at those entries.
proof fn lemma_size_sum_prefix(files: Seq<DuplicateFileEntry>, n: int)
    requires
        0 <= n <= files.len(),
    ensures
        size_sum(files, n) == size_sum(files.take(n), n),
    decreases n,
{
    if n > 0 {
        lemma_size_sum_prefix(files, n - 1);
        lemma_size_sum_prefix(files.take(n), n - 1);
        assert(files.take(n).take(n - 1) =~= files.take(n - 1));
    }
}

/// Sizes listed through a permutation add up to the same total.
proof fn lemma_size_sum_permuted(files: Seq<DuplicateFileEntry>, order: Seq<usize>, w: Seq<u64>)
    requires
        is_permutation(order, w.len() as int),
        files.len() == w.len(),
        forall|k: int| 0 <= k < files.len() ==> (#[trigger] files[k]).size_bytes == w[order[k] as int],
    ensures
        size_sum(files, files.len() as int) == total_size(w, w.len() as int),
    decreases w.len(),
{
    let n = w.len() as int;
    if n > 0 {
        lemma_permutation_onto(order, n, n - 1);
        let j = choose|j: int| 0 <= j < order.len() && order[j] == n - 1;
        let f2 = files.remove(j);
        let o2 = order.remove(j);
        let w2 = w.drop_last();
        assert forall|a: int| 0 <= a < o2.len() implies (#[trigger] o2[a]) < n - 1 by {
            let a2 = if a < j { a } else { a + 1 };
            assert(o2[a] == order[a2]);
            assert(order[a2] != order[j]);
        }
        assert forall|a: int, b: int| 0 <= a < b < o2.len() implies (#[trigger] o2[a]) != (#[trigger] o2[b]) by {
            let a2 = if a < j { a } else { a + 1 };
            let b2 = if b < j { b } else { b + 1 };
            assert(o2[a] == order[a2]);
            assert(o2[b] == order[b2]);
        }
        assert forall|k: int| 0 <= k < f2.len() implies (#[trigger] f2[k]).size_bytes == w2[o2[k] as int] by {
            let k2 = if k < j { k } else { k + 1 };
            assert(f2[k] == files[k2]);
            assert(o2[k] == order[k2]);
        }
        lemma_size_sum_permuted(f2, o2, w2);
        lemma_size_sum_remove(files, j);
        lemma_total_size_prefix(w, n - 1);
    }
}

proof fn lemma_total_size_prefix(w: Seq<u64>, n: int)
    requires
        0 <= n <= w.len(),
    ensures
        total_size(w, n) == total_size(w.take(n), n),
    decreases n,
{
    if n > 0 {
        lemma_total_size_prefix(w, n - 1);
        lemma_total_size_prefix(w.take(n), n - 1);
        assert(w.take(n).take(n - 1) =~= w.take(n - 1));
    }
}

proof fn lemma_sum_over_as_total(members: Seq<usize>, sizes: Seq<u64>, w: Seq<u64>)
    requires
        w.len() == members.len(),
        forall|a: int| 0 <= a < w.len() ==> #[trigger] w[a] == sizes[members[a] as int],
    ensures
        sum_over(members, sizes) == total_size(w, w.len() as int),
    decreases members.len(),
{
    if members.len() > 0 {
        lemma_sum_over_as_total(members.drop_last(), sizes, w.drop_last());
        lemma_total_size_prefix(w, w.len() - 1);
        assert(w.take(w.len() - 1) =~= w.drop_last());
    }
}

/// `g` is the group of the listed candidates, `order` how its copies are
/// arranged, and `backend` the registry entries of its copies (none for a
/// suspected group, whose copies cannot be cleaned).
pub open spec fn built_from(
    g: DuplicateFileGroup,
    backend: Seq<DuplicateBackendEntry>,
    order: Seq<usize>,
    candidates: Seq<CandidateFile>,
    members: Seq<usize>,
    suspected: bool,
) -> bool {
    &&& g.strict_duplicate == !suspected
    &&& g.total_bytes == sum_over(members, candidate_sizes(candidates))
    &&& size_sum(g.files@, g.files@.len() as int) == g.total_bytes
    &&& g.reclaimable_bytes == 0
    &&& g.recommended_selection_reason@ == if suspected {
        "Suspected duplicates require manual review"@
    } else {
        "Strict duplicates share size and content fingerprint"@
    }
    &&& group_shows(g.files@, order, member_candidates(candidates, members), suspected)
    &&& !suspected ==> forall|k: int, l: int|
        0 <= k < g.files@.len() && 0 <= l < g.files@.len() ==> (#[trigger] g.files@[k]).hash_fingerprint_id
            == (#[trigger] g.files@[l]).hash_fingerprint_id
    &&& suspected ==> backend.len() == 0
    &&& !suspected ==> backend.len() == members.len()
    &&& !suspected ==> forall|a: int|
        0 <= a < members.len() ==> {
            let b = #[trigger] backend[a];
            let c = candidates[members[a] as int];
            &&& b.group_id == g.group_id
            &&& b.path == c.path
            &&& b.path_key == c.path_key
            &&& b.protected == c.protected
        }
    &&& !suspected ==> forall|k: int|
        0 <= k < g.files@.len() ==> (#[trigger] g.files@[k]).entry_id == backend[order[k] as int].entry_id
}

/// Builds the group of the listed candidates.
#[verifier::spinoff_prover]
#[verifier::rlimit(40)]
pub fn build_group(candidates: &Vec<CandidateFile>, members: &Vec<usize>, suspected: bool) -> (r: BuiltGroup)
    requires
        members@.len() >= 1,
        distinct_below(members@, candidates@.len() as int),
        total_size(candidate_sizes(candidates@), candidates@.len() as int) <= u64::MAX,
    ensures
        built_from(r.group, r.backend_entries@, r.order@, candidates@, members@, suspected),
{
    let n = members.len();
    let ghost sizes = candidate_sizes(candidates@);
    let ghost mc = member_candidates(candidates@, members@);
    proof {
        lemma_sum_over_le_total(members@, sizes, candidates@.len() as int);
    }
    let group_id = new_identifier();
    let fingerprint_id = new_identifier();
    let mut entries: Vec<DuplicateFileEntry> = Vec::new();
    let mut backend: Vec<DuplicateBackendEntry> = Vec::new();
    let mut names: Vec<String> = Vec::new();
    let mut total: u64 = 0;
    let mut a: usize = 0;
    while a < n
        invariant
            n == members@.len(),
            a <= n,
            mc == member_candidates(candidates@, members@),
            sizes == candidate_sizes(candidates@),
            distinct_below(members@, candidates@.len() as int),
            sum_over(members@, sizes) <= u64::MAX,
            total == sum_over(members@.take(a as int), sizes),
            entries@.len() == a,
            names@.len() == a,
            forall|j: int| 0 <= j < a ==> #[trigger] shows_candidate(entries@[j], mc[j], suspected, j),
            forall|j: int| 0 <= j < a ==> (#[trigger] names@[j])@ == entries@[j].display_name@,
            !suspected ==> forall|j: int| 0 <= j < a ==> (#[trigger] entries@[j]).hash_fingerprint_id == fingerprint_id,
            suspected ==> backend@.len() == 0,
            !suspected ==> backend@.len() == a,
            !suspected ==> forall|j: int|
                0 <= j < a ==> {
                    let b = #[trigger] backend@[j];
                    let c = mc[j];
                    &&& b.group_id == group_id
                    &&& b.path == c.path
                    &&& b.path_key == c.path_key
                    &&& b.protected == c.protected
                    &&& b.entry_id == entries@[j].entry_id
                },
        decreases n - a,
    {
        let c = &candidates[members[a]];
        proof {
            assert(members@.take(a + 1).drop_last() =~= members@.take(a as int));
            assert(members@.take(a + 1).last() == members@[a as int]);
            lemma_sum_over_prefix_le(members@, sizes, a + 1);
        }
        let entry_id = new_identifier();
        let fp = if suspected {
            new_identifier()
        } else {
            fingerprint_id.clone()
        };
        let e = duplicate_entry(c, entry_id.clone(), fp, suspected, (a + 1) as u64);
        if !suspected {
            backend.push(
                DuplicateBackendEntry {
                    entry_id: entry_id,
                    group_id: group_id.clone(),
                    path: c.path.clone(),
                    path_key: c.path_key.clone(),
                    protected: c.protected,
                },
            );
        }
        names.push(e.display_name.clone());
        total = total + c.size_bytes;
        entries.push(e);
        a += 1;
    }
    proof {
        assert(members@.take(n as int) =~= members@);
    }
    let (files, order) = sort_entries_by_name(&entries, &names);
    let group = DuplicateFileGroup {
        group_id: group_id,
        strict_duplicate: !suspected,
        total_bytes: total,
        reclaimable_bytes: 0,
        files: files,
        recommended_selection_reason: if suspected {
            string_of_reason(true)
        } else {
            string_of_reason(false)
        },
    };
    proof {
        let w = Seq::new(n as nat, |a: int| candidates@[members@[a] as int].size_bytes);
        assert forall|k: int| 0 <= k < group.files@.len() implies (#[trigger] group.files@[k]).size_bytes == w[order@[k] as int] by {
            let a = order@[k] as int;
            assert(group.files@[k] == entries@[a]);
            assert(shows_candidate(entries@[a], mc[a], suspected, a));
        }
        lemma_size_sum_permuted(group.files@, order@, w);
        lemma_sum_over_as_total(members@, sizes, w);
        assert forall|k: int| 0 <= k < group.files@.len() implies #[trigger] shows_candidate(
            group.files@[k],
            mc[order@[k] as int],
            suspected,
            order@[k] as int,
        ) by {
            let a = order@[k] as int;
            assert(group.files@[k] == entries@[a]);
            assert(shows_candidate(entries@[a], mc[a], suspected, a));
        }
    }
    BuiltGroup { group, backend_entries: backend, order: Ghost(order@) }
}

/// The entries ordered by their shown name, with the order used: copy `k`
/// of the result is entry `order[k]`.
#[verifier::spinoff_prover]
fn sort_entries_by_name(entries: &Vec<DuplicateFileEntry>, names: &Vec<String>) -> (r: (Vec<DuplicateFileEntry>, Vec<usize>))
    requires
        names@.len() == entries@.len(),
        forall|j: int| 0 <= j < names@.len() ==> (#[trigger] names@[j])@ == entries@[j].display_name@,
    ensures
        is_permutation(r.1@, entries@.len() as int),
        r.0@.len() == entries@.len(),
        forall|k: int| 0 <= k < r.0@.len() ==> (#[trigger] r.0@[k]) == entries@[r.1@[k] as int],
        forall|k: int, l: int|
            0 <= k < l < r.0@.len() ==> lex_le((#[trigger] r.0@[k]).display_name@, (#[trigger] r.0@[l]).display_name@),
{
    let n = entries.len();
    let order = order_by_text(names);
    let ghost texts = Seq::new(names@.len(), |k: int| names@[k]@);
    let mut files: Vec<DuplicateFileEntry> = Vec::new();
    let mut k: usize = 0;
    while k < n
        invariant
            n == entries@.len(),
            k <= n,
            is_permutation(order@, n as int),
            files@.len() == k,
            forall|j: int| 0 <= j < k ==> (#[trigger] files@[j]) == entries@[order@[j] as int],
        decreases n - k,
    {
        files.push(copy_entry(&entries[order[k]]));
        k += 1;
    }
    proof {
        assert forall|k: int, l: int|
            0 <= k < l < files@.len() implies lex_le((#[trigger] files@[k]).display_name@, (#[trigger] files@[l]).display_name@) by {
            assert(texts[order@[k] as int] == files@[k].display_name@);
            assert(texts[order@[l] as int] == files@[l].display_name@);
        }
    }
    (files, order)
}

fn string_of_reason(suspected: bool) -> (r: String)
    ensures
        r@ == if suspected {
            "Suspected duplicates require manual review"@
        } else {
            "Strict duplicates share size and content fingerprint"@
        },
{
    if suspected {
        crate::text::string_of("Suspected duplicates require manual review")
    } else {
        crate::text::string_of("Strict duplicates share size and content fingerprint")
    }
}

proof fn lemma_sum_over_prefix_le(list: Seq<usize>, sizes: Seq<u64>, a: int)
    requires
        0 <= a <= list.len(),
    ensures
        sum_over(list.take(a), sizes) <= sum_over(list, sizes),
    decreases list.len() - a,
{
    if a < list.len() {
        lemma_sum_over_prefix_le(list, sizes, a + 1);
        assert(list.take(a + 1).drop_last() =~= list.take(a));
        crate::v2::duplicate_scan::lemma_sum_over_nonneg_pub(list.take(a + 1), sizes);
    } else {
        assert(list.take(a) =~= list);
    }
}

/// Positions `x` and `y` have the same size exactly when their size keys
/// agree.
pub proof fn lemma_size_keys(sizes: Seq<u64>, x: int, y: int)
    requires
        0 <= x < sizes.len(),
        0 <= y < sizes.len(),
    ensures
        same_hash(size_keys(sizes), x, y) <==> sizes[x] == sizes[y],
{
    let h = size_keys(sizes);
    if same_hash(h, x, y) {
        assert(h[x]->0.len() == h[y]->0.len());
    }
}

fn copy_indices(v: &Vec<usize>) -> (r: Vec<usize>)
    ensures
        r@ == v@,
{
    let mut r: Vec<usize> = Vec::new();
    let mut k: usize = 0;
    while k < v.len()
        invariant
            k <= v@.len(),
            r@ == v@.take(k as int),
        decreases v@.len() - k,
    {
        r.push(v[k]);
        proof {
            assert(v@.take(k + 1) =~= v@.take(k as int).push(v@[k as int]));
        }
        k += 1;
    }
    assert(v@.take(v@.len() as int) =~= v@);
    r
}

impl DuplicateScanCollector {
    /// The candidates whose size another candidate shares, as classes of
    /// equal size in order of ascending size; each class lists its
    /// candidates in the order they were found. Only these candidates need a
    /// content hash.
    pub fn size_buckets(&self) -> (b: Vec<Vec<usize>>)
        ensures
            is_hash_partition(Seq::new(b@.len(), |g: int| b@[g]@), size_keys(candidate_sizes(self.candidates@))),
            forall|g1: int, g2: int|
                0 <= g1 < g2 < b@.len() ==> self.candidates@[(#[trigger] b@[g1])@[0] as int].size_bytes
                    < self.candidates@[(#[trigger] b@[g2])@[0] as int].size_bytes,
    {
        let ghost sizes = candidate_sizes(self.candidates@);
        let mut size_list: Vec<u64> = Vec::new();
        let mut i: usize = 0;
        while i < self.candidates.len()
            invariant
                i <= self.candidates@.len(),
                size_list@ == sizes.take(i as int),
                sizes == candidate_sizes(self.candidates@),
            decreases self.candidates@.len() - i,
        {
            size_list.push(self.candidates[i].size_bytes);
            proof {
                assert(sizes.take(i + 1) =~= sizes.take(i as int).push(sizes[i as int]));
            }
            i += 1;
        }
        assert(sizes.take(sizes.len() as int) =~= sizes);
        let classes = size_classes(&size_list);
        let ghost cv = Seq::new(classes@.len(), |g: int| classes@[g]@);
        let ghost h = size_keys(sizes);
        let mut keys: Vec<u64> = Vec::new();
        let mut g: usize = 0;
        while g < classes.len()
            invariant
                g <= classes@.len(),
                keys@.len() == g,
                cv == Seq::new(classes@.len(), |j: int| classes@[j]@),
                is_hash_partition(cv, h),
                h == size_keys(sizes),
                size_list@ == sizes,
                forall|j: int| 0 <= j < g ==> #[trigger] keys@[j] == sizes[classes@[j]@[0] as int],
            decreases classes@.len() - g,
        {
            proof {
                assert(cv[g as int] == classes@[g as int]@);
                assert(classes@[g as int]@.len() >= 2);
            }
            keys.push(size_list[classes[g][0]]);
            g += 1;
        }
        let order = order_by_key(&keys);
        let mut b: Vec<Vec<usize>> = Vec::new();
        let mut k: usize = 0;
        while k < order.len()
            invariant
                k <= order@.len(),
                order@.len() == classes@.len(),
                crate::order::is_permutation(order@, classes@.len() as int),
                b@.len() == k,
                forall|j: int| 0 <= j < k ==> (#[trigger] b@[j])@ == classes@[order@[j] as int]@,
            decreases order@.len() - k,
        {
            b.push(copy_indices(&classes[order[k]]));
            k += 1;
        }
        proof {
            let bv = Seq::new(b@.len(), |j: int| b@[j]@);
            assert forall|j: int| 0 <= j < bv.len() implies #[trigger] bv[j] == cv[order@[j] as int] by {
                assert(b@[j]@ == classes@[order@[j] as int]@);
            }
            assert forall|x: int, y: int|
                0 <= x < h.len() && 0 <= y < h.len() && x != y && #[trigger] same_hash(h, x, y) implies exists|q: int|
                    0 <= q < bv.len() && (#[trigger] bv[q]).contains(x as usize) && bv[q].contains(y as usize) by {
                let gg = choose|gg: int| 0 <= gg < cv.len() && (#[trigger] cv[gg]).contains(x as usize) && cv[gg].contains(y as usize);
                crate::order::lemma_permutation_onto(order@, classes@.len() as int, gg);
                let q = choose|q: int| 0 <= q < order@.len() && order@[q] == gg;
                assert(bv[q] == cv[gg]);
            }
            assert forall|g1: int, g2: int| 0 <= g1 < g2 < bv.len() implies h[(#[trigger] bv[g1])[0] as int] != h[(#[trigger] bv[g2])[0] as int] by {
                let c1 = order@[g1] as int;
                let c2 = order@[g2] as int;
                assert(bv[g1] == cv[c1]);
                assert(bv[g2] == cv[c2]);
                if c1 < c2 {
                } else {
                    assert(c1 != c2);
                }
            }
            assert forall|g1: int, g2: int|
                0 <= g1 < g2 < b@.len() implies self.candidates@[(#[trigger] b@[g1])@[0] as int].size_bytes
                    < self.candidates@[(#[trigger] b@[g2])@[0] as int].size_bytes by {
                let c1 = order@[g1] as int;
                let c2 = order@[g2] as int;
                assert(keys@[c1] == sizes[classes@[c1]@[0] as int]);
                assert(keys@[c2] == sizes[classes@[c2]@[0] as int]);
                assert(cv[c1] == classes@[c1]@);
                assert(cv[c2] == classes@[c2]@);
                if c1 < c2 {
                    assert(h[cv[c1][0] as int] != h[cv[c2][0] as int]);
                } else {
                    assert(h[cv[c2][0] as int] != h[cv[c1][0] as int]);
                }
                lemma_size_keys(sizes, cv[c1][0] as int, cv[c2][0] as int);
            }
        }
        b
    }
}

/// `x` capped at the largest `u64`.
pub open spec fn capped(x: int) -> int {
    if x > u64::MAX {
        u64::MAX as int
    } else {
        x
    }
}

fn add_capped(a: u64, b: u64) -> (r: u64)
    ensures
        r == capped(a + b),
{
    a.saturating_add(b)
}

proof fn lemma_groups_bytes_nonneg(gs: Seq<DuplicateFileGroup>)
    ensures
        groups_bytes(gs) >= 0,
    decreases gs.len(),
{
    if gs.len() > 0 {
        lemma_groups_bytes_nonneg(gs.drop_last());
    }
}

proof fn lemma_members_count_nonneg(ms: Seq<Seq<usize>>)
    ensures
        members_count(ms) >= 0,
    decreases ms.len(),
{
    if ms.len() > 0 {
        lemma_members_count_nonneg(ms.drop_last());
    }
}

proof fn lemma_capped_add(start: u64, before: int, more: int)
    requires
        before >= 0,
        more >= 0,
    ensures
        capped(capped(start + before) + more) == capped(start + before + more),
{
}

/// The candidate indices of each class, given as positions in `bucket`.
pub open spec fn members_of(bucket: Seq<usize>, m: Seq<Seq<usize>>) -> Seq<Seq<usize>> {
    Seq::new(m.len(), |g: int| Seq::new(m[g].len(), |a: int| bucket[m[g][a] as int]))
}

/// Number of positions without a content hash.
pub open spec fn count_missing(h: Seq<Option<String>>) -> int
    decreases h.len(),
{
    if h.len() == 0 {
        0
    } else {
        count_missing(h.drop_last()) + if h.last() is None {
            1int
        } else {
            0
        }
    }
}

/// Total number of members.
pub open spec fn members_count(ms: Seq<Seq<usize>>) -> int
    decreases ms.len(),
{
    if ms.len() == 0 {
        0
    } else {
        members_count(ms.drop_last()) + ms.last().len()
    }
}

/// Total size of the groups.
pub open spec fn groups_bytes(gs: Seq<DuplicateFileGroup>) -> int
    decreases gs.len(),
{
    if gs.len() == 0 {
        0
    } else {
        groups_bytes(gs.drop_last()) + gs.last().total_bytes
    }
}

impl DuplicateScanCollector {
    /// Every strict group so far was built from its members, with its
    /// arrangement and registry entries.
    pub open spec fn strict_groups_built(&self) -> bool {
        &&& self.strict_members@.len() == self.strict_groups@.len()
        &&& self.strict_orders@.len() == self.strict_groups@.len()
        &&& self.strict_backend_entries@.len() == self.strict_groups@.len()
        &&& forall|g: int|
            0 <= g < self.strict_groups@.len() ==> built_from(
                #[trigger] self.strict_groups@[g],
                self.strict_backend_entries@[g]@,
                self.strict_orders@[g],
                self.candidates@,
                self.strict_members@[g],
                false,
            )
    }

    /// Counts one more hashed candidate and returns the progress report
    /// shown just before its content is hashed.
    pub fn hashing_progress(&mut self, candidate: usize, operation_id: &str) -> (r: OperationProgressPayload)
        requires
            candidate < old(self).candidates@.len(),
            old(self).hashed_files < u64::MAX,
        ensures
            final(self).hashed_files == old(self).hashed_files + 1,
            final(self).request == old(self).request,
            final(self).allowed_extensions == old(self).allowed_extensions,
            final(self).candidates == old(self).candidates,
            final(self).seen_path_keys == old(self).seen_path_keys,
            final(self).scanned_files == old(self).scanned_files,
            final(self).skipped_locations == old(self).skipped_locations,
            final(self).strict_groups == old(self).strict_groups,
            final(self).strict_backend_entries == old(self).strict_backend_entries,
            final(self).found_items == old(self).found_items,
            final(self).found_bytes == old(self).found_bytes,
            final(self).strict_members == old(self).strict_members,
            final(self).strict_orders == old(self).strict_orders,
            r.operation_id@ == operation_id@,
            r.module == OperationModule::DuplicateScan,
            r.stage@ == "hashing"@,
            r.percent == scan_percent(final(self).hashed_files, 60),
            r.current_location_hint == old(self).candidates@[candidate as int].visible_location_hint,
            r.current_file_type is None,
            r.scanned_files == old(self).scanned_files,
            r.found_groups == old(self).strict_groups@.len(),
            r.found_items == old(self).found_items,
            r.found_bytes == 0,
            r.processed_items == 0,
            r.success_count == 0,
            r.skipped_count == 0,
            r.failed_count == 0,
    {
        self.hashed_files = self.hashed_files + 1;
        progress_payload(
            operation_id,
            OperationModule::DuplicateScan,
            "hashing",
            scan_progress_percent(self.hashed_files, 60),
            self.candidates[candidate].visible_location_hint.clone(),
            self.scanned_files,
            self.strict_groups.len() as u64,
            self.found_items,
            0,
            0,
            0,
            0,
            0,
        )
    }

    /// Adds the strict groups of one size class: `hashes[i]` is the content
    /// hash of candidate `bucket[i]`, or `None` when it could not be read
    /// (counted as a skipped location). Candidates of equal hash form a
    /// group; the progress report shown after each new group is returned.
    pub fn add_bucket_groups(
        &mut self,
        bucket: &Vec<usize>,
        hashes: &Vec<Option<String>>,
        operation_id: &str,
    ) -> (r: Vec<OperationProgressPayload>)
        requires
            old(self).strict_groups_built(),
            hashes@.len() == bucket@.len(),
            distinct_below(bucket@, old(self).candidates@.len() as int),
            total_size(candidate_sizes(old(self).candidates@), old(self).candidates@.len() as int) <= u64::MAX,
            old(self).skipped_locations + bucket@.len() <= u64::MAX,
        ensures
            final(self).strict_groups_built(),
            final(self).request == old(self).request,
            final(self).allowed_extensions == old(self).allowed_extensions,
            final(self).candidates == old(self).candidates,
            final(self).seen_path_keys == old(self).seen_path_keys,
            final(self).scanned_files == old(self).scanned_files,
            final(self).hashed_files == old(self).hashed_files,
            final(self).skipped_locations == old(self).skipped_locations + count_missing(hashes@),
            final(self).strict_groups@.len() >= old(self).strict_groups@.len(),
            final(self).strict_groups@.take(old(self).strict_groups@.len() as int) == old(self).strict_groups@,
            final(self).strict_members@.take(old(self).strict_groups@.len() as int) == old(self).strict_members@,
            exists|m: Seq<Seq<usize>>|
                is_hash_partition(m, hash_views(hashes@)) && #[trigger] members_of(bucket@, m)
                    == final(self).strict_members@.skip(old(self).strict_groups@.len() as int),
            final(self).found_items == capped(old(self).found_items + members_count(
                final(self).strict_members@.skip(old(self).strict_groups@.len() as int),
            )),
            final(self).found_bytes == capped(old(self).found_bytes + groups_bytes(
                final(self).strict_groups@.skip(old(self).strict_groups@.len() as int),
            )),
            r@.len() == final(self).strict_groups@.len() - old(self).strict_groups@.len(),
            forall|g: int|
                0 <= g < r@.len() ==> {
                    let p = #[trigger] r@[g];
                    &&& p.operation_id@ == operation_id@
                    &&& p.module == OperationModule::DuplicateScan
                    &&& p.stage@ == "hashing"@
                    &&& p.percent == scan_percent(old(self).hashed_files, 70)
                    &&& p.found_groups == old(self).strict_groups@.len() + g + 1
                    &&& p.scanned_files == old(self).scanned_files
                    &&& p.found_items == capped(old(self).found_items + members_count(
                        final(self).strict_members@.subrange(old(self).strict_groups@.len() as int, old(self).strict_groups@.len() + g + 1),
                    ))
                    &&& p.found_bytes == capped(old(self).found_bytes + groups_bytes(
                        final(self).strict_groups@.subrange(old(self).strict_groups@.len() as int, old(self).strict_groups@.len() + g + 1),
                    ))
                    &&& p.current_location_hint == final(self).strict_groups@[old(self).strict_groups@.len() + g].files@[0].visible_location_hint
                },
    {
        let n = bucket.len();
        let mut missing: u64 = 0;
        let mut i: usize = 0;
        while i < n
            invariant
                n == bucket@.len(),
                n == hashes@.len(),
                i <= n,
                missing == count_missing(hashes@.take(i as int)),
                missing <= i,
            decreases n - i,
        {
            proof {
                assert(hashes@.take(i + 1).drop_last() =~= hashes@.take(i as int));
            }
            if hashes[i].is_none() {
                missing = missing + 1;
            }
            i += 1;
        }
        proof {
            assert(hashes@.take(n as int) =~= hashes@);
        }
        self.skipped_locations = self.skipped_locations + missing;
        let classes = hash_classes(hashes);
        let ghost mv = Seq::new(classes@.len(), |g: int| classes@[g]@);
        let ghost old_self = *old(self);
        let ghost base = old_self.strict_groups@.len();
        let ghost sizes = candidate_sizes(self.candidates@);
        let mut progress: Vec<OperationProgressPayload> = Vec::new();
        proof {
            assert(self.strict_groups@.take(base as int) =~= old_self.strict_groups@);
            assert(self.strict_members@.take(base as int) =~= old_self.strict_members@);
            assert(self.strict_groups@.skip(base as int) =~= Seq::<DuplicateFileGroup>::empty());
            assert(self.strict_members@.skip(base as int) =~= Seq::<Seq<usize>>::empty());
            assert(members_of(bucket@, mv.take(0)) =~= Seq::<Seq<usize>>::empty());
        }
        let mut g: usize = 0;
        while g < classes.len()
            invariant
                g <= classes@.len(),
                mv == Seq::new(classes@.len(), |j: int| classes@[j]@),
                is_hash_partition(mv, hash_views(hashes@)),
                n == bucket@.len(),
                n == hashes@.len(),
                distinct_below(bucket@, self.candidates@.len() as int),
                sizes == candidate_sizes(self.candidates@),
                total_size(sizes, self.candidates@.len() as int) <= u64::MAX,
                self.strict_groups_built(),
                self.candidates == old_self.candidates,
                self.request == old_self.request,
                self.allowed_extensions == old_self.allowed_extensions,
                self.seen_path_keys == old_self.seen_path_keys,
                self.scanned_files == old_self.scanned_files,
                self.hashed_files == old_self.hashed_files,
                self.skipped_locations == old_self.skipped_locations + count_missing(hashes@),
                base == old_self.strict_groups@.len(),
                self.strict_groups@.len() == base + g,
                self.strict_groups@.take(base as int) == old_self.strict_groups@,
                self.strict_members@.take(base as int) == old_self.strict_members@,
                self.strict_members@.skip(base as int) == members_of(bucket@, mv.take(g as int)),
                self.found_items == capped(old_self.found_items + members_count(self.strict_members@.skip(base as int))),
                self.found_bytes == capped(old_self.found_bytes + groups_bytes(self.strict_groups@.skip(base as int))),
                progress@.len() == g,
                forall|j: int|
                    0 <= j < g ==> {
                        let p = #[trigger] progress@[j];
                        &&& p.operation_id@ == operation_id@
                        &&& p.module == OperationModule::DuplicateScan
                        &&& p.stage@ == "hashing"@
                        &&& p.percent == scan_percent(old_self.hashed_files, 70)
                        &&& p.found_groups == base + j + 1
                        &&& p.scanned_files == old_self.scanned_files
                        &&& p.found_items == capped(old_self.found_items + members_count(
                            self.strict_members@.subrange(base as int, base + j + 1),
                        ))
                        &&& p.found_bytes == capped(old_self.found_bytes + groups_bytes(
                            self.strict_groups@.subrange(base as int, base + j + 1),
                        ))
                        &&& p.current_location_hint == self.strict_groups@[base + j].files@[0].visible_location_hint
                    },
            decreases classes@.len() - g,
        {
            let class = &classes[g];
            let mut members: Vec<usize> = Vec::new();
            let mut a: usize = 0;
            while a < class.len()
                invariant
                    a <= class@.len(),
                    class@ == mv[g as int],
                    g < mv.len(),
                    is_hash_partition(mv, hash_views(hashes@)),
                    n == bucket@.len(),
                    n == hashes@.len(),
                    members@ == Seq::new(a as nat, |q: int| bucket@[class@[q] as int]),
                decreases class@.len() - a,
            {
                proof {
                    assert(class@[a as int] < n);
                }
                members.push(bucket[class[a]]);
                proof {
                    assert(members@ =~= Seq::new((a + 1) as nat, |q: int| bucket@[class@[q] as int]));
                }
                a += 1;
            }
            proof {
                assert forall|x: int| 0 <= x < members@.len() implies (#[trigger] members@[x]) < self.candidates@.len() by {
                    assert(class@[x] < n);
                }
                assert forall|x: int, y: int| 0 <= x < y < members@.len() implies (#[trigger] members@[x]) != (#[trigger] members@[y]) by {
                    assert(class@[x] < class@[y]);
                }
                assert(distinct_below(members@, self.candidates@.len() as int));
                assert(class@.len() >= 2);
            }
            let built = build_group(&self.candidates, &members, false);
            let BuiltGroup { group, backend_entries, order } = built;
            proof {
                assert(group.files@.len() == members@.len());
            }
            let hint = group.files[0].visible_location_hint.clone();
            let ghost old_groups = self.strict_groups@;
            let ghost old_members = self.strict_members@;
            let ghost old_orders = self.strict_orders@;
            let ghost old_backend = self.strict_backend_entries@;
            let ghost old_items = self.found_items;
            let ghost old_bytes = self.found_bytes;
            self.found_items = add_capped(self.found_items, group.files.len() as u64);
            self.found_bytes = add_capped(self.found_bytes, group.total_bytes);
            self.strict_groups.push(group);
            self.strict_backend_entries.push(backend_entries);
            self.strict_members = Ghost(self.strict_members@.push(members@));
            self.strict_orders = Ghost(self.strict_orders@.push(order@));
            let payload = progress_payload(
                operation_id,
                OperationModule::DuplicateScan,
                "hashing",
                scan_progress_percent(self.hashed_files, 70),
                hint,
                self.scanned_files,
                self.strict_groups.len() as u64,
                self.found_items,
                self.found_bytes,
                0,
                0,
                0,
                0,
            );
            let ghost old_progress = progress@;
            progress.push(payload);
            proof {
                let gs = self.strict_groups@;
                let ms = self.strict_members@;
                assert(gs.take(base as int) =~= old_groups.take(base as int));
                assert(ms.take(base as int) =~= old_members.take(base as int));
                assert(gs.skip(base as int).drop_last() =~= old_groups.skip(base as int));
                assert(ms.skip(base as int).drop_last() =~= old_members.skip(base as int));
                assert(mv.take(g + 1).drop_last() =~= mv.take(g as int));
                assert(members@ =~= members_of(bucket@, mv.take(g + 1))[g as int]);
                assert forall|j: int| 0 <= j < g implies #[trigger] members_of(bucket@, mv.take(g + 1))[j]
                    == members_of(bucket@, mv.take(g as int))[j] by {
                    assert(members_of(bucket@, mv.take(g + 1))[j] =~= members_of(bucket@, mv.take(g as int))[j]);
                }
                assert(ms.skip(base as int) =~= members_of(bucket@, mv.take(g + 1)));
                lemma_groups_bytes_nonneg(old_groups.skip(base as int));
                lemma_members_count_nonneg(old_members.skip(base as int));
                lemma_capped_add(old_self.found_items, members_count(old_members.skip(base as int)), members@.len() as int);
                lemma_capped_add(old_self.found_bytes, groups_bytes(old_groups.skip(base as int)), gs.last().total_bytes as int);
                assert(gs.subrange(base as int, base + g + 1) =~= gs.skip(base as int));
                assert(ms.subrange(base as int, base + g + 1) =~= ms.skip(base as int));
                assert forall|j: int| 0 <= j < g implies {
                    &&& #[trigger] gs.subrange(base as int, base + j + 1) == old_groups.subrange(base as int, base + j + 1)
                    &&& ms.subrange(base as int, base + j + 1) == old_members.subrange(base as int, base + j + 1)
                    &&& gs[base + j] == old_groups[base + j]
                } by {
                    assert(gs.subrange(base as int, base + j + 1) =~= old_groups.subrange(base as int, base + j + 1));
                    assert(ms.subrange(base as int, base + j + 1) =~= old_members.subrange(base as int, base + j + 1));
                }
                assert(gs[base + g] == gs.last());
                assert forall|j: int| 0 <= j < g + 1 implies {
                    let p = #[trigger] progress@[j];
                    &&& p.operation_id@ == operation_id@
                    &&& p.module == OperationModule::DuplicateScan
                    &&& p.stage@ == "hashing"@
                    &&& p.percent == scan_percent(old_self.hashed_files, 70)
                    &&& p.found_groups == base + j + 1
                    &&& p.scanned_files == old_self.scanned_files
                    &&& p.found_items == capped(old_self.found_items + members_count(
                        ms.subrange(base as int, base + j + 1),
                    ))
                    &&& p.found_bytes == capped(old_self.found_bytes + groups_bytes(
                        gs.subrange(base as int, base + j + 1),
                    ))
                    &&& p.current_location_hint == gs[base + j].files@[0].visible_location_hint
                } by {
                    if j < g {
                        assert(progress@[j] == old_progress[j]);
                        assert(gs.subrange(base as int, base + j + 1) =~= old_groups.subrange(base as int, base + j + 1));
                        assert(ms.subrange(base as int, base + j + 1) =~= old_members.subrange(base as int, base + j + 1));
                        assert(gs[base + j] == old_groups[base + j]);
                    }
                }
                assert forall|q: int| 0 <= q < gs.len() implies built_from(
                    #[trigger] gs[q],
                    self.strict_backend_entries@[q]@,
                    self.strict_orders@[q],
                    self.candidates@,
                    ms[q],
                    false,
                ) by {
                    if q < old_groups.len() {
                        assert(gs[q] == old_groups[q]);
                        assert(self.strict_backend_entries@[q] == old_backend[q]);
                    }
                }
            }
            g += 1;
        }
        proof {
            assert(mv.take(mv.len() as int) =~= mv);
            assert(members_of(bucket@, mv) == self.strict_members@.skip(base as int));
        }
        progress
    }
}

} // verus!
