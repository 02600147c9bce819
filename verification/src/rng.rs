//! The deterministic generator behind every "random" decision: seed
//! expansion, the shift-xor step, and the shuffle that it drives.

use crate::bytes::{get_u64_le, u64_from_le_bytes};
use vstd::prelude::*;

verus! {

/// One step of the generator: the state XORed with itself shifted left by
/// 13, then right by 7, then left by 17.
pub open spec fn xorshift64_spec(s: u64) -> u64 {
    let a = s ^ (s << 13);
    let b = a ^ (a >> 7);
    b ^ (b << 17)
}

/// The state after `k` steps from `s`; the `k`-th draw is this same value.
pub open spec fn rng_iter(s: u64, k: nat) -> u64
    decreases k,
{
    if k == 0 {
        s
    } else {
        xorshift64_spec(rng_iter(s, (k - 1) as nat))
    }
}

/// The state that a nine-byte seed expands to: its first eight bytes read
/// as a little-endian number, XORed with the ninth shifted left by 11 bits.
pub open spec fn seed_state(seed: Seq<u8>) -> u64
    recommends
        seed.len() == 9,
{
    u64_from_le_bytes(seed.subrange(0, 8)) ^ ((seed[8] as u64) << 11)
}

/// `s` with the entries at `i` and `j` exchanged.
pub open spec fn swapped(s: Seq<usize>, i: int, j: int) -> Seq<usize>
    recommends
        0 <= i < s.len(),
        0 <= j < s.len(),
{
    s.update(i, s[j]).update(j, s[i])
}

/// The shuffle from position `i` down to 1: each position is exchanged
/// with the one that the next draw picks among itself and those below it.
pub open spec fn shuffle_spec(perm: Seq<usize>, state: u64, i: nat) -> Seq<usize>
    decreases i,
{
    if i == 0 {
        perm
    } else {
        let draw = xorshift64_spec(state);
        shuffle_spec(swapped(perm, i as int, (draw as int) % (i + 1) as int), draw, (i - 1) as nat)
    }
}

/// The sequence 0, 1, .., n-1.
pub open spec fn identity_spec(n: nat) -> Seq<usize> {
    Seq::new(n, |k: int| k as usize)
}

/// The permutation of 0..n that the generator in state `state` shuffles
/// the identity into. It takes n-1 draws.
pub open spec fn permutation_spec(state: u64, n: nat) -> Seq<usize> {
    if n == 0 {
        Seq::empty()
    } else {
        shuffle_spec(identity_spec(n), state, (n - 1) as nat)
    }
}

/// The number of draws that a shuffle of `n` entries takes.
pub open spec fn permutation_draws(n: nat) -> nat {
    if n == 0 {
        0
    } else {
        (n - 1) as nat
    }
}

/// Whether `perm` lists each of 0..n exactly once.
pub open spec fn is_permutation(perm: Seq<usize>, n: nat) -> bool {
    &&& perm.len() == n
    &&& forall|k: int| 0 <= k < n ==> 0 <= #[trigger] perm[k] < n
    &&& forall|a: int, b: int| 0 <= a < b < n ==> perm[a] != perm[b]
}

/// Exchanging two entries of a permutation leaves a permutation.
pub proof fn lemma_swapped_is_permutation(perm: Seq<usize>, n: nat, i: int, j: int)
    requires
        is_permutation(perm, n),
        0 <= i < n,
        0 <= j < n,
    ensures
        is_permutation(swapped(perm, i, j), n),
{
    let next = swapped(perm, i, j);
    assert forall|a: int, b: int| 0 <= a < b < n implies next[a] != next[b] by {
        let pa = if a == i { j } else if a == j { i } else { a };
        let pb = if b == i { j } else if b == j { i } else { b };
        assert(next[a] == perm[pa]);
        assert(next[b] == perm[pb]);
        assert(pa != pb);
        if pa < pb {
            assert(perm[pa] != perm[pb]);
        } else {
            assert(perm[pb] != perm[pa]);
        }
    }
}

/// A shuffle of a permutation is a permutation.
pub proof fn lemma_shuffle_is_permutation(perm: Seq<usize>, state: u64, i: nat, n: nat)
    requires
        is_permutation(perm, n),
        i < n,
    ensures
        is_permutation(shuffle_spec(perm, state, i), n),
    decreases i,
{
    if i > 0 {
        let draw = xorshift64_spec(state);
        let j = (draw as int) % (i + 1) as int;
        lemma_swapped_is_permutation(perm, n, i as int, j);
        lemma_shuffle_is_permutation(swapped(perm, i as int, j), draw, (i - 1) as nat, n);
    }
}

/// Whatever the state, the shuffle of the identity lists each of 0..n
/// exactly once.
pub proof fn lemma_permutation_is_permutation(state: u64, n: nat)
    requires
        n <= usize::MAX,
    ensures
        is_permutation(permutation_spec(state, n), n),
{
    if n > 0 {
        lemma_shuffle_is_permutation(identity_spec(n), state, (n - 1) as nat, n);
    }
}

/// Advances the generator by one step and returns the new state.
pub fn xorshift64(state: &mut u64) -> (draw: u64)
    ensures
        *final(state) == xorshift64_spec(*old(state)),
        draw == *final(state),
{
    let mut s: u64 = *state;
    s ^= s << 13;
    s ^= s >> 7;
    s ^= s << 17;
    *state = s;
    s
}

/// Expands a nine-byte seed to the generator's first state.
pub fn seed9_to_u64(seed9: &[u8]) -> (state: u64)
    requires
        seed9@.len() == 9,
    ensures
        state == seed_state(seed9@),
{
    let first: u64 = get_u64_le(seed9, 0);
    first ^ ((seed9[8] as u64) << 11)
}

/// Shuffles 0..n by the generator: for each position from n-1 down to 1,
/// one draw picks the partner among the positions up to it.
pub fn generate_permutation(state: &mut u64, n: usize) -> (perm: Vec<usize>)
    ensures
        perm@ == permutation_spec(*old(state), n as nat),
        *final(state) == rng_iter(*old(state), permutation_draws(n as nat)),
        is_permutation(perm@, n as nat),
{
    let mut perm: Vec<usize> = Vec::new();
    let mut k: usize = 0;
    while k < n
        invariant
            k <= n,
            perm@ == identity_spec(k as nat),
        decreases n - k,
    {
        perm.push(k);
        assert(perm@ =~= identity_spec((k + 1) as nat));
        k += 1;
    }
    proof {
        lemma_permutation_is_permutation(*old(state), n as nat);
    }
    if n == 0 {
        assert(perm@ =~= Seq::<usize>::empty());
        return perm;
    }
    let mut i: usize = n - 1;
    while i >= 1
        invariant
            i < n,
            perm@.len() == n,
            shuffle_spec(perm@, *state, i as nat) == permutation_spec(*old(state), n as nat),
            rng_iter(*state, i as nat) == rng_iter(*old(state), (n - 1) as nat),
        decreases i,
    {
        let ghost before = *state;
        let draw: u64 = xorshift64(state);
        let j: usize = (draw % ((i + 1) as u64)) as usize;
        let at_i: usize = perm[i];
        let at_j: usize = perm[j];
        let ghost old_perm = perm@;
        perm[i] = at_j;
        perm[j] = at_i;
        proof {
            assert(perm@ =~= swapped(old_perm, i as int, j as int));
            lemma_rng_iter_shift(before, (i - 1) as nat);
        }
        i -= 1;
    }
    perm
}

/// Taking one step first and `k` after it is taking `k + 1` steps.
pub proof fn lemma_rng_iter_shift(s: u64, k: nat)
    ensures
        rng_iter(xorshift64_spec(s), k) == rng_iter(s, k + 1),
    decreases k,
{
    reveal_with_fuel(rng_iter, 2);
    if k > 0 {
        lemma_rng_iter_shift(s, (k - 1) as nat);
    }
}

} // verus!
