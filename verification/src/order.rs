//! Stable orderings, returned as permutations of indices.
use vstd::prelude::*;

use crate::text::{lemma_lex_asymmetric, lemma_lex_irreflexive, lemma_lex_total, lemma_lex_transitive, lex_compare, lex_le, lex_lt, to_chars};

verus! {

/// `p` lists each index below `n` exactly once.
pub open spec fn is_permutation(p: Seq<usize>, n: int) -> bool {
    &&& p.len() == n
    &&& forall|a: int| 0 <= a < p.len() ==> (#[trigger] p[a]) < n
    &&& forall|a: int, b: int| 0 <= a < b < p.len() ==> (#[trigger] p[a]) != (#[trigger] p[b])
}

/// A permutation of the indices below `n` lists every one of them.
pub proof fn lemma_permutation_onto(p: Seq<usize>, n: int, x: int)
    requires
        is_permutation(p, n),
        0 <= x < n,
    ensures
        exists|a: int| 0 <= a < p.len() && p[a] == x,
{
    let q = p.map_values(|v: usize| v as int);
    assert forall|i: int, j: int| 0 <= i < q.len() && 0 <= j < q.len() && i != j implies q[i] != q[j] by {
        if i < j {
            assert(p[i] != p[j]);
        } else {
            assert(p[j] != p[i]);
        }
    }
    assert(q.no_duplicates());
    q.unique_seq_to_set();
    vstd::seq_lib::seq_to_set_is_finite(q);
    let r = vstd::set_lib::set_int_range(0, n);
    vstd::set_lib::lemma_int_range(0, n);
    assert forall|v: int| q.to_set().contains(v) implies r.contains(v) by {
        let i = choose|i: int| 0 <= i < q.len() && q[i] == v;
        assert(p[i] < n);
    }
    vstd::set_lib::lemma_subset_equality(q.to_set(), r);
    assert(r.contains(x));
    assert(q.to_set().contains(x));
    let i = choose|i: int| 0 <= i < q.len() && q[i] == x;
    assert(p[i] == x);
}

/// `p` orders the indices by ascending key, keeping equal keys in index order.
pub open spec fn sorted_by_key_stable(p: Seq<usize>, keys: Seq<u64>) -> bool {
    forall|a: int, b: int|
        0 <= a < b < p.len() ==> keys[(#[trigger] p[a]) as int] < keys[(#[trigger] p[b]) as int] || (
        keys[p[a] as int] == keys[p[b] as int] && p[a] < p[b])
}

/// The stable ascending order of `keys`.
pub fn order_by_key(keys: &Vec<u64>) -> (p: Vec<usize>)
    ensures
        is_permutation(p@, keys@.len() as int),
        sorted_by_key_stable(p@, keys@),
{
    let n = keys.len();
    let mut p: Vec<usize> = Vec::new();
    let mut i: usize = 0;
    while i < n
        invariant
            n == keys@.len(),
            i <= n,
            is_permutation(p@, i as int),
            sorted_by_key_stable(p@, keys@),
        decreases n - i,
    {
        let ki = keys[i];
        let mut pos: usize = p.len();
        while pos > 0 && keys[p[pos - 1]] > ki
            invariant
                n == keys@.len(),
                i < n,
                ki == keys@[i as int],
                pos <= p@.len(),
                is_permutation(p@, i as int),
                forall|a: int| pos <= a < p@.len() ==> keys@[(#[trigger] p@[a]) as int] > ki,
            decreases pos,
        {
            pos -= 1;
        }
        let ghost old_p = p@;
        proof {
            assert forall|a: int| 0 <= a < pos implies keys@[(#[trigger] old_p[a]) as int] <= ki by {
                if pos > 0 && a < pos - 1 {
                    assert(keys@[old_p[a] as int] < keys@[old_p[pos - 1] as int] || keys@[old_p[a] as int] == keys@[old_p[pos - 1] as int]);
                }
            }
        }
        p.insert(pos, i);
        proof {
            assert(p@ =~= old_p.insert(pos as int, i));
            assert forall|a: int| 0 <= a < p@.len() implies (#[trigger] p@[a]) < i + 1 by {
                if a < pos {
                    assert(p@[a] == old_p[a]);
                } else if a > pos {
                    assert(p@[a] == old_p[a - 1]);
                }
            }
            assert forall|a: int, b: int| 0 <= a < b < p@.len() implies (#[trigger] p@[a]) != (#[trigger] p@[b]) by {
                if a < pos {
                    assert(p@[a] == old_p[a]);
                } else if a > pos {
                    assert(p@[a] == old_p[a - 1]);
                }
                if b < pos {
                    assert(p@[b] == old_p[b]);
                } else if b > pos {
                    assert(p@[b] == old_p[b - 1]);
                }
            }
            assert forall|a: int, b: int| 0 <= a < b < p@.len() implies keys@[(#[trigger] p@[a]) as int]
                < keys@[(#[trigger] p@[b]) as int] || (keys@[p@[a] as int] == keys@[p@[b] as int]
                && p@[a] < p@[b]) by {
                if a < pos {
                    assert(p@[a] == old_p[a]);
                } else if a > pos {
                    assert(p@[a] == old_p[a - 1]);
                }
                if b < pos {
                    assert(p@[b] == old_p[b]);
                } else if b > pos {
                    assert(p@[b] == old_p[b - 1]);
                }
            }
        }
        i += 1;
    }
    p
}

/// `p` orders the indices by descending size, then ascending name, keeping
/// equal pairs in index order.
pub open spec fn sorted_by_size_desc_name_stable(p: Seq<usize>, sizes: Seq<u64>, names: Seq<Seq<char>>) -> bool {
    forall|a: int, b: int|
        0 <= a < b < p.len() ==> comes_before(
            (#[trigger] p[a]) as int,
            (#[trigger] p[b]) as int,
            sizes,
            names,
        )
}

/// Index `x` precedes index `y`: larger size, or equal size and smaller name,
/// or equal size and name and smaller index.
pub open spec fn comes_before(x: int, y: int, sizes: Seq<u64>, names: Seq<Seq<char>>) -> bool {
    sizes[x] > sizes[y] || (sizes[x] == sizes[y] && (lex_lt(names[x], names[y]) || (names[x] == names[y]
        && x < y)))
}

proof fn lemma_comes_before_transitive(x: int, y: int, z: int, sizes: Seq<u64>, names: Seq<Seq<char>>)
    requires
        comes_before(x, y, sizes, names),
        comes_before(y, z, sizes, names),
    ensures
        comes_before(x, z, sizes, names),
{
    if sizes[x] == sizes[y] && sizes[y] == sizes[z] {
        if lex_lt(names[x], names[y]) && lex_lt(names[y], names[z]) {
            lemma_lex_transitive(names[x], names[y], names[z]);
        }
    }
}

fn precedes_exec(x: usize, q: usize, sizes: &Vec<u64>, names: &Vec<String>, name_x: &Vec<char>) -> (r: bool)
    requires
        x < sizes@.len(),
        q < sizes@.len(),
        sizes@.len() == names@.len(),
        name_x@ == names@[x as int]@,
    ensures
        r == (sizes@[q as int] < sizes@[x as int] || (sizes@[q as int] == sizes@[x as int] && lex_lt(names@[x as int]@, names@[q as int]@))),
{
    sizes[q] < sizes[x] || (sizes[q] == sizes[x] && lex_compare(&to_chars(names[q].as_str()), name_x) == 1)
}

/// The order by descending size, then ascending name, stable.
pub fn order_by_size_desc_then_name(sizes: &Vec<u64>, names: &Vec<String>) -> (p: Vec<usize>)
    requires
        sizes@.len() == names@.len(),
    ensures
        is_permutation(p@, sizes@.len() as int),
        sorted_by_size_desc_name_stable(p@, sizes@, Seq::new(names@.len(), |k: int| names@[k]@)),
{
    let ghost nv = Seq::new(names@.len(), |k: int| names@[k]@);
    let n = sizes.len();
    let mut p: Vec<usize> = Vec::new();
    let mut i: usize = 0;
    while i < n
        invariant
            n == sizes@.len(),
            n == names@.len(),
            nv == Seq::new(names@.len(), |k: int| names@[k]@),
            i <= n,
            is_permutation(p@, i as int),
            sorted_by_size_desc_name_stable(p@, sizes@, nv),
        decreases n - i,
    {
        let name_i = to_chars(names[i].as_str());
        let mut pos: usize = p.len();
        while pos > 0 && precedes_exec(i, p[pos - 1], sizes, names, &name_i)
            invariant
                n == sizes@.len(),
                n == names@.len(),
                nv == Seq::new(names@.len(), |k: int| names@[k]@),
                i < n,
                name_i@ == nv[i as int],
                pos <= p@.len(),
                is_permutation(p@, i as int),
                forall|a: int| pos <= a < p@.len() ==> comes_before(i as int, (#[trigger] p@[a]) as int, sizes@, nv),
            decreases pos,
        {
            proof {
                let q = p@[pos - 1] as int;
                assert(nv[q] == names@[q]@);
            }
            pos -= 1;
        }
        let ghost old_p = p@;
        proof {
            if pos > 0 {
                let q = old_p[pos - 1] as int;
                assert(nv[q] == names@[q]@);
                assert(q < i);
                assert(comes_before(q, i as int, sizes@, nv)) by {
                    lemma_lex_total(nv[q], nv[i as int]);
                }
            }
            assert forall|a: int| 0 <= a < pos implies comes_before((#[trigger] old_p[a]) as int, i as int, sizes@, nv) by {
                if a < pos - 1 {
                    lemma_comes_before_transitive(old_p[a] as int, old_p[pos - 1] as int, i as int, sizes@, nv);
                }
            }
        }
        p.insert(pos, i);
        proof {
            assert(p@ =~= old_p.insert(pos as int, i));
            assert forall|a: int| 0 <= a < p@.len() implies (#[trigger] p@[a]) < i + 1 by {
                if a < pos {
                    assert(p@[a] == old_p[a]);
                } else if a > pos {
                    assert(p@[a] == old_p[a - 1]);
                }
            }
            assert forall|a: int, b: int| 0 <= a < b < p@.len() implies (#[trigger] p@[a]) != (#[trigger] p@[b]) by {
                if a < pos {
                    assert(p@[a] == old_p[a]);
                } else if a > pos {
                    assert(p@[a] == old_p[a - 1]);
                }
                if b < pos {
                    assert(p@[b] == old_p[b]);
                } else if b > pos {
                    assert(p@[b] == old_p[b - 1]);
                }
            }
            assert forall|a: int, b: int| 0 <= a < b < p@.len() implies comes_before(
                (#[trigger] p@[a]) as int,
                (#[trigger] p@[b]) as int,
                sizes@,
                nv,
            ) by {
                if a < pos {
                    assert(p@[a] == old_p[a]);
                } else if a > pos {
                    assert(p@[a] == old_p[a - 1]);
                }
                if b < pos {
                    assert(p@[b] == old_p[b]);
                } else if b > pos {
                    assert(p@[b] == old_p[b - 1]);
                }
            }
        }
        i += 1;
    }
    p
}

/// `p` orders the indices by ascending text, keeping equal texts in index
/// order.
pub open spec fn sorted_by_text_stable(p: Seq<usize>, texts: Seq<Seq<char>>) -> bool {
    forall|a: int, b: int|
        0 <= a < b < p.len() ==> lex_lt(texts[(#[trigger] p[a]) as int], texts[(#[trigger] p[b]) as int]) || (
        texts[p[a] as int] == texts[p[b] as int] && p[a] < p[b])
}

/// The stable ascending order of texts.
pub fn order_by_text(texts: &Vec<String>) -> (p: Vec<usize>)
    ensures
        is_permutation(p@, texts@.len() as int),
        sorted_by_text_stable(p@, Seq::new(texts@.len(), |k: int| texts@[k]@)),
{
    let mut sizes: Vec<u64> = Vec::new();
    let mut k: usize = 0;
    while k < texts.len()
        invariant
            k <= texts@.len(),
            sizes@.len() == k,
            forall|j: int| 0 <= j < k ==> sizes@[j] == 0,
        decreases texts@.len() - k,
    {
        sizes.push(0);
        k += 1;
    }
    let p = order_by_size_desc_then_name(&sizes, texts);
    p
}

} // verus!
