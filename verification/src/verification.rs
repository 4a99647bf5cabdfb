//! What the verifier computes from a proof: the challenges that the
//! transcript gives for it, and the scalars of the one multiscalar
//! multiplication that decides it.

use crate::algebra::product;
use crate::field::{finv, fmul, fneg};
use crate::point::{is_identity_encoding, msm_value};
use crate::proving::{after_round, round_challenge};
use crate::transcript::domain_separated;
use vstd::arithmetic::power2::{lemma_pow2_pos, lemma_pow2_unfold, pow2};
use vstd::prelude::*;

verus! {

/// The transcript's state after the first `j` rounds of the proof have been
/// absorbed, from `state` on.
pub open spec fn verifier_state(state: Seq<u8>, l: Seq<Seq<u8>>, r: Seq<Seq<u8>>, j: nat) -> Seq<
    u8,
>
    decreases j,
{
    if j == 0 {
        state
    } else {
        after_round(verifier_state(state, l, r, (j - 1) as nat), l[j - 1], r[j - 1])
    }
}

/// The challenges of the proof's rounds, in the order in which they are
/// squeezed.
pub open spec fn round_challenges(state: Seq<u8>, l: Seq<Seq<u8>>, r: Seq<Seq<u8>>) -> Seq<nat> {
    Seq::new(l.len(), |j: int| round_challenge(verifier_state(state, l, r, j as nat), l[j], r[j]))
}

/// The square of each entry.
pub open spec fn squares(v: Seq<nat>) -> Seq<nat> {
    Seq::new(v.len(), |j: int| fmul(v[j], v[j]))
}

/// The inverse of each entry, and zero for zero.
pub open spec fn inverses(v: Seq<nat>) -> Seq<nat> {
    Seq::new(v.len(), |j: int| finv(v[j]))
}

/// The negation of each entry.
pub open spec fn negations(v: Seq<nat>) -> Seq<nat> {
    Seq::new(v.len(), |j: int| fneg(v[j]))
}

/// The position of the highest bit of `i` that is set, and zero for zero.
pub open spec fn floor_log2(i: nat) -> nat
    decreases i,
{
    if i <= 1 {
        0
    } else {
        1 + floor_log2(i / 2)
    }
}

/// The number whose highest set bit is at `lg` has `floor_log2` equal to `lg`.
pub proof fn lemma_floor_log2_is(i: nat, lg: nat)
    requires
        pow2(lg) <= i < pow2(lg + 1),
    ensures
        floor_log2(i) == lg,
    decreases lg,
{
    lemma_pow2_unfold(lg + 1);
    if lg == 0 {
        vstd::arithmetic::power2::lemma2_to64();
    } else {
        lemma_pow2_unfold(lg);
        lemma_pow2_pos((lg - 1) as nat);
        lemma_floor_log2_is(i / 2, (lg - 1) as nat);
    }
}

/// The entry at index `i` of the vector `s` for the challenges `ch`: the
/// product of all inverses at index zero, and from there on the entry at
/// `i` without its highest bit, times the square of the challenge of that
/// bit. The challenges stand in the order of the rounds, so the challenge
/// of bit `lg` is at index `ch.len() - 1 - lg`.
pub open spec fn s_entry(ch: Seq<nat>, i: nat) -> nat
    decreases i,
    via s_entry_decreases
{
    if i == 0 {
        product(inverses(ch))
    } else {
        let lg = floor_log2(i);
        fmul(s_entry(ch, (i - pow2(lg)) as nat), squares(ch)[ch.len() - 1 - lg])
    }
}

#[via_fn]
proof fn s_entry_decreases(ch: Seq<nat>, i: nat) {
    lemma_pow2_pos(floor_log2(i));
    if i > 0 {
        lemma_floor_log2_bounds(i);
    }
}

/// A positive number lies between two to its `floor_log2` and the next
/// power of two.
pub proof fn lemma_floor_log2_bounds(i: nat)
    requires
        i > 0,
    ensures
        pow2(floor_log2(i)) <= i < pow2(floor_log2(i) + 1),
    decreases i,
{
    lemma_pow2_unfold(floor_log2(i) + 1);
    if i <= 1 {
        vstd::arithmetic::power2::lemma2_to64();
    } else {
        lemma_floor_log2_bounds(i / 2);
        lemma_pow2_unfold(floor_log2(i / 2) + 1);
    }
}

/// The vector `s` of length `n` for the challenges `ch`.
pub open spec fn s_vector(ch: Seq<nat>, n: nat) -> Seq<nat> {
    Seq::new(n, |i: int| s_entry(ch, i as nat))
}

/// Neither of the proof's vectors holds the identity of the group.
pub open spec fn no_identity(l: Seq<Seq<u8>>, r: Seq<Seq<u8>>) -> bool {
    forall|j: int|
        0 <= j < l.len() ==> !is_identity_encoding(#[trigger] l[j]) && !is_identity_encoding(r[j])
}

/// The proof's vectors fit a statement about vectors of length `n`: fewer
/// than 32 rounds, `n` two to the number of rounds, and no identity among
/// the points.
pub open spec fn fits(l: Seq<Seq<u8>>, r: Seq<Seq<u8>>, n: nat) -> bool {
    l.len() < 32 && n == pow2(l.len()) && no_identity(l, r)
}

/// The scalars on the bases `G`: `a * s[i] * g_factors[i]`.
pub open spec fn g_scalars(a: nat, s: Seq<nat>, g_factors: Seq<nat>) -> Seq<nat> {
    Seq::new(s.len(), |i: int| fmul(fmul(a, s[i]), g_factors[i]))
}

/// The scalars on the bases `H`: `b * s[n - 1 - i] * h_factors[i]`.
pub open spec fn h_scalars(b: nat, s: Seq<nat>, h_factors: Seq<nat>) -> Seq<nat> {
    Seq::new(s.len(), |i: int| fmul(fmul(b, s[s.len() - 1 - i]), h_factors[i]))
}

/// The challenges of a proof with commitments `l`, `r` about vectors of
/// length `n`, from a transcript in `state`.
pub open spec fn proof_challenges(state: Seq<u8>, l: Seq<Seq<u8>>, r: Seq<Seq<u8>>, n: nat) -> Seq<
    nat,
> {
    round_challenges(domain_separated(state, n as u64), l, r)
}

/// The commitment that the proof stands for: the one multiscalar
/// multiplication of the verification equation, on `q`, the bases `g` and
/// `h`, and the proof's `l` and `r`.
pub open spec fn expected_commitment(
    ch: Seq<nat>,
    n: nat,
    a: nat,
    b: nat,
    g_factors: Seq<nat>,
    h_factors: Seq<nat>,
    q: Seq<u8>,
    g: Seq<Seq<u8>>,
    h: Seq<Seq<u8>>,
    l: Seq<Seq<u8>>,
    r: Seq<Seq<u8>>,
) -> Seq<u8> {
    let s = s_vector(ch, n);
    msm_value(
        seq![fmul(a, b)] + g_scalars(a, s, g_factors) + h_scalars(b, s, h_factors) + negations(
            squares(ch),
        ) + negations(squares(inverses(ch))),
        seq![q] + g + h + l + r,
    )
}

/// The verifier accepts the proof `(l, r, a, b)` for the commitment `p`:
/// the proof fits the length `n`, and the commitment that it stands for
/// under the challenges of the transcript is `p`.
pub open spec fn accepts(
    state: Seq<u8>,
    n: nat,
    l: Seq<Seq<u8>>,
    r: Seq<Seq<u8>>,
    a: nat,
    b: nat,
    g_factors: Seq<nat>,
    h_factors: Seq<nat>,
    p: Seq<u8>,
    q: Seq<u8>,
    g: Seq<Seq<u8>>,
    h: Seq<Seq<u8>>,
) -> bool {
    fits(l, r, n) && expected_commitment(
        proof_challenges(state, l, r, n),
        n,
        a,
        b,
        g_factors,
        h_factors,
        q,
        g,
        h,
        l,
        r,
    ) == p
}

} // verus!
