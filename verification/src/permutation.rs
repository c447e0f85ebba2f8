//! Relabelings of the vertices `0..n`: a sequence whose entry `i` is the new
//! label of vertex `i`.

use vstd::prelude::*;
use vstd::seq_lib::seq_to_set_is_finite;
use vstd::set_lib::{lemma_int_range, lemma_len_subset, lemma_subset_equality, set_int_range};

verus! {

/// `sigma` relabels `0..n` one to one: it has `n` entries, each below `n`,
/// and no two alike.
pub open spec fn is_bijection(sigma: Seq<u32>, n: nat) -> bool {
    &&& sigma.len() == n
    &&& forall|i: int| 0 <= i < sigma.len() ==> (#[trigger] sigma[i]) < n
    &&& sigma.no_duplicates()
}

/// The relabeling of `0..n` that leaves every vertex where it is.
pub open spec fn identity(n: nat) -> Seq<u32> {
    Seq::new(n, |i: int| i as u32)
}

/// The relabeling that undoes `sigma`: its entry `j` is the vertex that
/// `sigma` sends to `j`.
pub open spec fn inverse(sigma: Seq<u32>) -> Seq<u32> {
    Seq::new(sigma.len(), |j: int| sigma.index_of(j as u32) as u32)
}

/// The relabeling that applies `inner` first and `outer` to what comes out.
pub open spec fn compose(outer: Seq<u32>, inner: Seq<u32>) -> Seq<u32> {
    Seq::new(inner.len(), |i: int| outer[inner[i] as int])
}

/// The entries of a bijection, as integers, are exactly `0..n`.
proof fn lemma_bijection_covers(sigma: Seq<u32>, n: nat)
    requires
        is_bijection(sigma, n),
    ensures
        sigma.map_values(|x: u32| x as int).to_set() == set_int_range(0, n as int),
{
    let ints = sigma.map_values(|x: u32| x as int);
    assert(ints.no_duplicates()) by {
        assert forall|i: int, j: int|
            0 <= i < ints.len() && 0 <= j < ints.len() && i != j implies ints[i] != ints[j] by {
            assert(sigma[i] != sigma[j]);
        }
    }
    ints.unique_seq_to_set();
    seq_to_set_is_finite(ints);
    lemma_int_range(0, n as int);
    assert(ints.to_set().subset_of(set_int_range(0, n as int))) by {
        assert forall|x: int| ints.to_set().contains(x) implies set_int_range(0, n as int).contains(
            x,
        ) by {
            let i = choose|i: int| 0 <= i < ints.len() && ints[i] == x;
            assert(sigma[i] < n);
        }
    }
    lemma_subset_equality(ints.to_set(), set_int_range(0, n as int));
}

/// A bijection on `0..n` reaches every vertex: each label below `n` is the
/// image of some vertex.
pub proof fn lemma_bijection_onto(sigma: Seq<u32>, n: nat, j: u32)
    requires
        is_bijection(sigma, n),
        j < n,
    ensures
        sigma.contains(j),
        0 <= sigma.index_of(j) < n,
        sigma[sigma.index_of(j)] == j,
{
    lemma_bijection_covers(sigma, n);
    let ints = sigma.map_values(|x: u32| x as int);
    assert(set_int_range(0, n as int).contains(j as int));
    assert(ints.to_set().contains(j as int));
    let i = choose|i: int| 0 <= i < ints.len() && ints[i] == j as int;
    assert(sigma[i] == j);
}

/// Labels are 32 bits wide, so no bijection is on more than `2^32` vertices.
pub proof fn lemma_bijection_len(sigma: Seq<u32>, n: nat)
    requires
        is_bijection(sigma, n),
    ensures
        n <= 0x1_0000_0000,
{
    lemma_bijection_covers(sigma, n);
    let ints = sigma.map_values(|x: u32| x as int);
    lemma_int_range(0, n as int);
    lemma_int_range(0, 0x1_0000_0000);
    assert(ints.to_set().subset_of(set_int_range(0, 0x1_0000_0000))) by {
        assert forall|x: int| ints.to_set().contains(x) implies set_int_range(
            0,
            0x1_0000_0000,
        ).contains(x) by {
            let i = choose|i: int| 0 <= i < ints.len() && ints[i] == x;
            assert(ints[i] == sigma[i] as int);
        }
    }
    lemma_len_subset(ints.to_set(), set_int_range(0, 0x1_0000_0000));
}

/// The vertex that a bijection sends to `sigma[i]` is `i` and no other.
pub proof fn lemma_index_of_image(sigma: Seq<u32>, n: nat, i: int)
    requires
        is_bijection(sigma, n),
        0 <= i < n,
    ensures
        sigma.index_of(sigma[i]) == i,
{
    lemma_bijection_onto(sigma, n, sigma[i]);
}

/// The inverse of a bijection on `0..n` is a bijection on `0..n`.
pub proof fn law_inverse_is_bijection(sigma: Seq<u32>, n: nat)
    requires
        is_bijection(sigma, n),
    ensures
        is_bijection(inverse(sigma), n),
{
    lemma_bijection_len(sigma, n);
    let inv = inverse(sigma);
    assert forall|j: int| 0 <= j < inv.len() implies (#[trigger] inv[j]) < n && sigma[inv[j] as int]
        == j by {
        lemma_bijection_onto(sigma, n, j as u32);
    }
    assert forall|j: int, k: int|
        0 <= j < inv.len() && 0 <= k < inv.len() && j != k implies inv[j] != inv[k] by {
        assert(sigma[inv[j] as int] == j);
        assert(sigma[inv[k] as int] == k);
    }
}

/// Relabeling by a bijection and then by its inverse leaves every vertex
/// where it was.
pub proof fn law_inverse_after(sigma: Seq<u32>, n: nat)
    requires
        is_bijection(sigma, n),
    ensures
        compose(inverse(sigma), sigma) == identity(n),
{
    lemma_bijection_len(sigma, n);
    let both = compose(inverse(sigma), sigma);
    assert forall|i: int| 0 <= i < n implies both[i] == identity(n)[i] by {
        lemma_index_of_image(sigma, n, i);
    }
    assert(both =~= identity(n));
}

/// Relabeling by the inverse of a bijection and then by the bijection leaves
/// every vertex where it was.
pub proof fn law_after_inverse(sigma: Seq<u32>, n: nat)
    requires
        is_bijection(sigma, n),
    ensures
        compose(sigma, inverse(sigma)) == identity(n),
{
    lemma_bijection_len(sigma, n);
    let both = compose(sigma, inverse(sigma));
    assert forall|j: int| 0 <= j < n implies both[j] == identity(n)[j] by {
        lemma_bijection_onto(sigma, n, j as u32);
    }
    assert(both =~= identity(n));
}

/// Inverting a bijection twice gives the bijection back.
pub proof fn law_inverse_involution(sigma: Seq<u32>, n: nat)
    requires
        is_bijection(sigma, n),
    ensures
        inverse(inverse(sigma)) == sigma,
{
    lemma_bijection_len(sigma, n);
    law_inverse_is_bijection(sigma, n);
    let inv = inverse(sigma);
    let back = inverse(inv);
    assert forall|i: int| 0 <= i < n implies back[i] == sigma[i] by {
        // `inv` sends `sigma[i]` to `i`, so the vertex that `inv` sends to `i`
        // is `sigma[i]`.
        lemma_index_of_image(sigma, n, i);
        assert(inv[sigma[i] as int] == i);
        lemma_bijection_onto(inv, n, i as u32);
        let k = inv.index_of(i as u32);
        assert(inv[k] == i);
        if k != sigma[i] as int {
            assert(inv[k] != inv[sigma[i] as int]);
        }
    }
    assert(back =~= sigma);
}

/// Tells whether `sigma` is a bijection on `0..n`.
pub fn is_permutation(sigma: &Vec<u32>, n: u32) -> (ok: bool)
    ensures
        ok == is_bijection(sigma@, n as nat),
{
    if sigma.len() != n as usize {
        return false;
    }
    let mut seen: Vec<bool> = Vec::new();
    let mut made: u32 = 0;
    while made < n
        invariant
            made <= n,
            seen@.len() == made,
            forall|j: int| 0 <= j < made ==> !(#[trigger] seen@[j]),
        decreases n - made,
    {
        seen.push(false);
        made += 1;
    }
    let mut i: usize = 0;
    while i < sigma.len()
        invariant
            i <= sigma.len(),
            sigma.len() == n,
            seen@.len() == n,
            forall|k: int| 0 <= k < i ==> (#[trigger] sigma@[k]) < n,
            sigma@.take(i as int).no_duplicates(),
            forall|j: int|
                0 <= j < n ==> (#[trigger] seen@[j] <==> sigma@.take(i as int).contains(j as u32)),
        decreases sigma.len() - i,
    {
        let x = sigma[i];
        if x >= n {
            return false;
        }
        if seen[x as usize] {
            proof {
                let before = sigma@.take(i as int);
                let k = choose|k: int| 0 <= k < before.len() && before[k] == x;
                assert(sigma@[k] == sigma@[i as int]);
            }
            return false;
        }
        seen.set(x as usize, true);
        proof {
            let before = sigma@.take(i as int);
            let after = sigma@.take(i + 1);
            assert(after =~= before.push(x));
            assert forall|a: int, b: int|
                0 <= a < after.len() && 0 <= b < after.len() && a != b implies after[a]
                != after[b] by {
                if a == i {
                    assert(before[b] == after[b]);
                } else if b == i {
                    assert(before[a] == after[a]);
                } else {
                    assert(before[a] == after[a] && before[b] == after[b]);
                }
            }
            assert forall|j: int| 0 <= j < n implies (#[trigger] seen@[j] <==> after.contains(
                j as u32,
            )) by {
                vstd::seq_lib::lemma_seq_contains_after_push(before, x, j as u32);
            }
        }
        i += 1;
    }
    proof {
        assert(sigma@.take(i as int) =~= sigma@);
    }
    true
}

/// The relabeling of `0..n` that leaves every vertex where it is.
pub fn identity_permutation(n: u32) -> (sigma: Vec<u32>)
    ensures
        sigma@ == identity(n as nat),
        is_bijection(sigma@, n as nat),
{
    let mut sigma: Vec<u32> = Vec::new();
    let mut i: u32 = 0;
    while i < n
        invariant
            i <= n,
            sigma@.len() == i,
            forall|k: int| 0 <= k < i ==> (#[trigger] sigma@[k]) == k,
        decreases n - i,
    {
        sigma.push(i);
        i += 1;
    }
    assert(sigma@ =~= identity(n as nat));
    sigma
}

/// Computes the inverse of a bijection: entry `isomorphism[i]` of the result
/// is `i`, for every `i`.
pub fn invert_isomorphism(isomorphism: &Vec<u32>) -> (inverted: Vec<u32>)
    requires
        is_bijection(isomorphism@, isomorphism@.len()),
    ensures
        inverted@ == inverse(isomorphism@),
        is_bijection(inverted@, isomorphism@.len()),
        forall|i: int|
            0 <= i < isomorphism@.len() ==> inverted@[(#[trigger] isomorphism@[i]) as int] == i,
{
    let n = isomorphism.len();
    proof {
        lemma_bijection_len(isomorphism@, n as nat);
    }
    let mut inverted: Vec<u32> = Vec::new();
    let mut made: usize = 0;
    while made < n
        invariant
            made <= n,
            inverted@.len() == made,
        decreases n - made,
    {
        inverted.push(0);
        made += 1;
    }
    let mut i: usize = 0;
    while i < n
        invariant
            i <= n,
            n == isomorphism@.len(),
            n <= 0x1_0000_0000,
            inverted@.len() == n,
            is_bijection(isomorphism@, n as nat),
            forall|k: int| 0 <= k < i ==> inverted@[(#[trigger] isomorphism@[k]) as int] == k,
        decreases n - i,
    {
        let x = isomorphism[i];
        let ghost before = inverted@;
        inverted.set(x as usize, i as u32);
        proof {
            assert forall|k: int| 0 <= k < i + 1 implies inverted@[(#[trigger] isomorphism@[
                k
            ]) as int] == k by {
                if k < i {
                    assert(isomorphism@[k] != isomorphism@[i as int]);
                    assert(before[isomorphism@[k] as int] == k);
                }
            }
        }
        i += 1;
    }
    proof {
        let sigma = isomorphism@;
        assert forall|j: int| 0 <= j < n implies inverted@[j] == inverse(sigma)[j] by {
            lemma_bijection_onto(sigma, n as nat, j as u32);
            let k = sigma.index_of(j as u32);
            assert(inverted@[sigma[k] as int] == k);
        }
        assert(inverted@ =~= inverse(sigma));
        law_inverse_is_bijection(sigma, n as nat);
    }
    inverted
}

} // verus!
