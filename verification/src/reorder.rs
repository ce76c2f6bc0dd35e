//! Arrival-order reassembly.
//!
//! The result channel delivers one message per section, but in worker
//! completion order, not section order. An arrival order is therefore some
//! permutation of the section indices, and the assembled population is the
//! concatenation of the per-section outputs visited in that order. Whatever
//! the permutation, the assembly pools exactly the per-section outputs: the
//! lemmas here state that as a multiset equality, and give the assembled
//! length when all sections have one size.
use vstd::prelude::*;

use vstd::multiset::Multiset;
use vstd::seq_lib::group_to_multiset_ensures;
use vstd::seq_lib::lemma_multiset_commutative;

verus! {

/// The identity order on `n` section indices.
pub open spec fn identity_order(n: nat) -> Seq<usize> {
    Seq::new(n, |i: int| i as usize)
}

/// An arrival order for `n` sections: some permutation of the indices
/// `0 .. n`.
pub open spec fn is_index_permutation(order: Seq<usize>, n: nat) -> bool {
    order.to_multiset() == identity_order(n).to_multiset()
}

/// The per-section outputs visited in the given order.
pub open spec fn ordered_parts<A>(parts: Seq<Seq<A>>, order: Seq<usize>) -> Seq<Seq<A>> {
    Seq::new(order.len(), |k: int| parts[order[k] as int])
}

/// The per-section outputs pooled together, one section at a time, visited
/// in the given order.
pub open spec fn pooled<A>(parts: Seq<Seq<A>>, order: Seq<usize>) -> Multiset<A>
    decreases order.len(),
{
    if order.len() == 0 {
        Multiset::empty()
    } else {
        parts[order[0] as int].to_multiset().add(pooled(parts, order.drop_first()))
    }
}

/// What a permutation of the section indices gives: full length, all indices
/// in range, no index twice, every index present.
pub proof fn lemma_index_permutation_facts(order: Seq<usize>, n: nat)
    requires
        n <= usize::MAX,
        is_index_permutation(order, n),
    ensures
        order.len() == n,
        forall|j: int| 0 <= j < order.len() ==> (#[trigger] order[j]) < n,
        order.no_duplicates(),
        forall|v: int| 0 <= v < n ==> #[trigger] order.contains(v as usize),
{
    broadcast use group_to_multiset_ensures;
    broadcast use vstd::multiset::group_multiset_axioms;

    let id = identity_order(n);
    assert(order.len() == order.to_multiset().len());
    assert(id.len() == id.to_multiset().len());
    assert forall|j: int| 0 <= j < order.len() implies (#[trigger] order[j]) < n by {
        assert(order.contains(order[j]));
        assert(id.to_multiset().count(order[j]) > 0);
        assert(id.contains(order[j]));
        let w = choose|w: int| 0 <= w < id.len() && id[w] == order[j];
        assert(order[j] == w as usize);
    }
    assert(id.no_duplicates());
    id.lemma_multiset_has_no_duplicates();
    order.lemma_multiset_has_no_duplicates_conv();
    assert forall|v: int| 0 <= v < n implies #[trigger] order.contains(v as usize) by {
        assert(id[v] == v as usize);
        assert(id.contains(v as usize));
        assert(order.to_multiset().count(v as usize) > 0);
    }
}

/// A full-length, in-range, duplicate-free order that mentions every section
/// index is a permutation of the indices.
pub proof fn lemma_index_permutation_intro(order: Seq<usize>, n: nat)
    requires
        n <= usize::MAX,
        order.len() == n,
        forall|j: int| 0 <= j < order.len() ==> (#[trigger] order[j]) < n,
        order.no_duplicates(),
        forall|v: int| 0 <= v < n ==> #[trigger] order.contains(v as usize),
    ensures
        is_index_permutation(order, n),
{
    broadcast use group_to_multiset_ensures;
    broadcast use vstd::multiset::group_multiset_axioms;

    let id = identity_order(n);
    assert(id.no_duplicates());
    id.lemma_multiset_has_no_duplicates();
    order.lemma_multiset_has_no_duplicates();
    assert forall|x: usize| order.to_multiset().count(x) == id.to_multiset().count(x) by {
        if (x as int) < n {
            assert(order.contains(x)) by {
                assert(order.contains((x as int) as usize));
            }
            assert(order.to_multiset().count(x) == 1);
            assert(id[x as int] == x);
            assert(id.contains(x));
            assert(id.to_multiset().count(x) == 1);
        } else {
            assert forall|j: int| 0 <= j < order.len() implies order[j] != x by {
                assert(order[j] < n);
            }
            assert(!order.contains(x));
            assert forall|j: int| 0 <= j < id.len() implies id[j] != x by {
                assert(id[j] == j as usize);
            }
            assert(!id.contains(x));
            assert(order.to_multiset().count(x) == 0);
            assert(id.to_multiset().count(x) == 0);
        }
    }
    assert(order.to_multiset() =~= id.to_multiset());
}

/// Checks whether `order` is an arrival order for `n` sections — each of the
/// section indices `0 .. n`, each exactly once — so that a caller that
/// observed a completion order can test it before replaying it.
pub fn check_arrival_order(order: &Vec<usize>, n: usize) -> (ok: bool)
    ensures
        ok <==> is_index_permutation(order@, n as nat),
{
    if order.len() != n {
        proof {
            if is_index_permutation(order@, n as nat) {
                lemma_index_permutation_facts(order@, n as nat);
            }
        }
        return false;
    }
    let mut seen: Vec<bool> = Vec::new();
    let mut f: usize = 0;
    while f < n
        invariant
            f <= n,
            seen@.len() == f,
            forall|v: int| 0 <= v < f ==> !(#[trigger] seen@[v]),
        decreases n - f,
    {
        seen.push(false);
        f = f + 1;
    }
    let mut t: usize = 0;
    while t < n
        invariant
            order@.len() == n,
            seen@.len() == n,
            t <= n,
            forall|j: int| 0 <= j < t ==> (#[trigger] order@[j]) < n,
            forall|j1: int, j2: int| 0 <= j1 < j2 < t ==> order@[j1] != order@[j2],
            forall|v: int|
                0 <= v < n ==> ((#[trigger] seen@[v]) <==> exists|j: int|
                    0 <= j < t && order@[j] == v as usize),
        decreases n - t,
    {
        let o = order[t];
        if o >= n {
            proof {
                if is_index_permutation(order@, n as nat) {
                    lemma_index_permutation_facts(order@, n as nat);
                    assert(order@[t as int] < n);
                }
            }
            return false;
        }
        if seen[o] {
            proof {
                let j = choose|j: int| 0 <= j < t && order@[j] == (o as int) as usize;
                if is_index_permutation(order@, n as nat) {
                    lemma_index_permutation_facts(order@, n as nat);
                    assert(order@[j] == order@[t as int]);
                }
            }
            return false;
        }
        seen[o] = true;
        proof {
            assert forall|v: int|
                0 <= v < n implies ((#[trigger] seen@[v]) <==> exists|j: int|
                    0 <= j < t + 1 && order@[j] == v as usize) by {
                if v == o as int {
                    assert(order@[t as int] == v as usize);
                } else {
                    if exists|j: int| 0 <= j < t + 1 && order@[j] == v as usize {
                        let j = choose|j: int| 0 <= j < t + 1 && order@[j] == v as usize;
                        assert(j != t as int);
                    }
                }
            }
        }
        t = t + 1;
    }
    let mut v: usize = 0;
    while v < n
        invariant
            order@.len() == n,
            seen@.len() == n,
            v <= n,
            forall|j: int| 0 <= j < n ==> (#[trigger] order@[j]) < n,
            forall|j1: int, j2: int| 0 <= j1 < j2 < n ==> order@[j1] != order@[j2],
            forall|u: int|
                0 <= u < n ==> ((#[trigger] seen@[u]) <==> exists|j: int|
                    0 <= j < n && order@[j] == u as usize),
            forall|u: int| 0 <= u < v ==> #[trigger] seen@[u],
        decreases n - v,
    {
        if !seen[v] {
            proof {
                if is_index_permutation(order@, n as nat) {
                    lemma_index_permutation_facts(order@, n as nat);
                    assert(order@.contains((v as int) as usize));
                    let j = choose|j: int| 0 <= j < order@.len() && order@[j] == v as usize;
                    assert(seen@[v as int]);
                }
            }
            return false;
        }
        v = v + 1;
    }
    proof {
        assert(order@.no_duplicates()) by {
            assert forall|j1: int, j2: int|
                0 <= j1 < order@.len() && 0 <= j2 < order@.len() && j1 != j2 implies order@[j1]
                != order@[j2] by {
                if j1 < j2 {
                } else {
                    assert(j2 < j1);
                }
            }
        }
        assert forall|u: int| 0 <= u < n implies #[trigger] order@.contains(u as usize) by {
            assert(seen@[u]);
            let j = choose|j: int| 0 <= j < n && order@[j] == u as usize;
        }
        lemma_index_permutation_intro(order@, n as nat);
    }
    true
}

/// Flattening the outputs visited in some order pools exactly the visited
/// sections.
pub proof fn lemma_ordered_flatten_pooled<A>(parts: Seq<Seq<A>>, order: Seq<usize>)
    ensures
        ordered_parts(parts, order).flatten().to_multiset() == pooled(parts, order),
    decreases order.len(),
{
    broadcast use group_to_multiset_ensures;
    broadcast use vstd::multiset::group_multiset_axioms;

    let o = ordered_parts(parts, order);
    if order.len() == 0 {
        assert(o =~= Seq::<Seq<A>>::empty());
        assert(o.flatten() =~= Seq::<A>::empty());
        assert(o.flatten().to_multiset().len() == 0);
        vstd::multiset::lemma_multiset_empty_len(o.flatten().to_multiset());
        assert(o.flatten().to_multiset() =~= Multiset::<A>::empty());
    } else {
        assert(o.first() == parts[order[0] as int]);
        assert(o.drop_first() =~= ordered_parts(parts, order.drop_first()));
        lemma_ordered_flatten_pooled(parts, order.drop_first());
        lemma_multiset_commutative(o.first(), o.drop_first().flatten());
        assert(o.flatten() == o.first() + o.drop_first().flatten());
    }
}

/// Pooling in an order that visits position `p` first pools the same
/// sections.
pub proof fn lemma_pooled_extract<A>(parts: Seq<Seq<A>>, order: Seq<usize>, p: int)
    requires
        0 <= p < order.len(),
    ensures
        pooled(parts, order) == parts[order[p] as int].to_multiset().add(
            pooled(parts, order.remove(p)),
        ),
    decreases p,
{
    broadcast use vstd::multiset::group_multiset_axioms;

    if p == 0 {
        assert(order.remove(0) =~= order.drop_first());
    } else {
        let rest = order.drop_first();
        assert(order.remove(p).drop_first() =~= rest.remove(p - 1));
        assert(order.remove(p)[0] == order[0]);
        assert(rest[p - 1] == order[p]);
        lemma_pooled_extract(parts, rest, p - 1);
        let a = parts[order[0] as int].to_multiset();
        let b = parts[order[p] as int].to_multiset();
        let c = pooled(parts, rest.remove(p - 1));
        assert(pooled(parts, order) == a.add(b.add(c)));
        assert(pooled(parts, order.remove(p)) == a.add(c));
        assert(a.add(b.add(c)) =~= b.add(a.add(c)));
    }
}

/// Two orders that visit the same positions, however arranged, pool the same
/// sections.
pub proof fn lemma_pooled_congruence<A>(parts: Seq<Seq<A>>, ord1: Seq<usize>, ord2: Seq<usize>)
    requires
        ord1.to_multiset() == ord2.to_multiset(),
    ensures
        pooled(parts, ord1) == pooled(parts, ord2),
    decreases ord1.len(),
{
    broadcast use group_to_multiset_ensures;
    broadcast use vstd::multiset::group_multiset_axioms;

    if ord1.len() == 0 {
        assert(ord2.len() == ord2.to_multiset().len());
        assert(ord1.len() == ord1.to_multiset().len());
    } else {
        let j = ord1[0];
        assert(ord1.contains(j));
        assert(ord2.to_multiset().count(j) > 0);
        assert(ord2.contains(j));
        let p = choose|p: int| 0 <= p < ord2.len() && ord2[p] == j;
        lemma_pooled_extract(parts, ord2, p);
        assert(ord1.remove(0) =~= ord1.drop_first());
        assert(ord1.drop_first().to_multiset() == ord1.to_multiset().remove(j));
        assert(ord2.remove(p).to_multiset() == ord2.to_multiset().remove(j));
        lemma_pooled_congruence(parts, ord1.drop_first(), ord2.remove(p));
    }
}

/// Reassembling the per-section outputs in any arrival order pools exactly
/// the per-section outputs: a count-and-membership equality, independent of
/// worker completion order.
pub proof fn lemma_permuted_flatten_multiset<A>(parts: Seq<Seq<A>>, order: Seq<usize>)
    requires
        parts.len() <= usize::MAX,
        is_index_permutation(order, parts.len()),
    ensures
        ordered_parts(parts, order).flatten().to_multiset() == parts.flatten().to_multiset(),
{
    let id = identity_order(parts.len());
    lemma_index_permutation_facts(order, parts.len());
    lemma_ordered_flatten_pooled(parts, order);
    lemma_ordered_flatten_pooled(parts, id);
    lemma_pooled_congruence(parts, order, id);
    assert forall|k: int| 0 <= k < parts.len() implies ordered_parts(parts, id)[k] == parts[k] by {
        assert(id[k] == k as usize);
    }
    assert(ordered_parts(parts, id) =~= parts);
}

/// Flattening sections of one common size gives their combined length.
pub proof fn lemma_flatten_len_uniform<A>(parts: Seq<Seq<A>>, s: int)
    requires
        forall|i: int| 0 <= i < parts.len() ==> (#[trigger] parts[i]).len() == s,
    ensures
        parts.flatten().len() == parts.len() * s,
    decreases parts.len(),
{
    if parts.len() == 0 {
    } else {
        assert forall|i: int| 0 <= i < parts.drop_first().len() implies (#[trigger] parts.drop_first()[i]).len() == s by {
            assert(parts.drop_first()[i] == parts[i + 1]);
        }
        lemma_flatten_len_uniform(parts.drop_first(), s);
        assert(parts.flatten() == parts.first() + parts.drop_first().flatten());
        assert(parts.len() * s == s + (parts.len() - 1) * s) by (nonlinear_arith);
    }
}

} // verus!
