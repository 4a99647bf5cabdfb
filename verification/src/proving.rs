//! What the prover computes, round by round, as a function of the
//! transcript's state, the bases and the witness.

use crate::algebra::{
    dot, folded_a, folded_b, folded_g, folded_h, hadamard, hi, lo, scaled_points,
};
use crate::field::finv;
use crate::point::msm_value;
use crate::transcript::{challenge_state, challenge_value, domain_separated, point_appended};
use vstd::prelude::*;

verus! {

/// The prover between two rounds: the transcript's state, the commitments
/// made so far, and the bases and witness vectors that are left.
pub struct ProverState {
    pub transcript: Seq<u8>,
    pub l: Seq<Seq<u8>>,
    pub r: Seq<Seq<u8>>,
    pub g: Seq<Seq<u8>>,
    pub h: Seq<Seq<u8>>,
    pub a: Seq<nat>,
    pub b: Seq<nat>,
}

/// The commitment to a half of `a` on a half of `G` and a half of `b` on a
/// half of `H`, with their inner product on `q`.
pub open spec fn commitment(
    a_half: Seq<nat>,
    b_half: Seq<nat>,
    g_half: Seq<Seq<u8>>,
    h_half: Seq<Seq<u8>>,
    q: Seq<u8>,
) -> Seq<u8> {
    msm_value(a_half + b_half + seq![dot(a_half, b_half)], g_half + h_half + seq![q])
}

/// The commitment of the first round, where the weights of the bases are
/// multiplied into the scalars.
pub open spec fn weighted_commitment(
    a_half: Seq<nat>,
    a_weights: Seq<nat>,
    b_half: Seq<nat>,
    b_weights: Seq<nat>,
    g_half: Seq<Seq<u8>>,
    h_half: Seq<Seq<u8>>,
    q: Seq<u8>,
) -> Seq<u8> {
    msm_value(
        hadamard(a_half, a_weights) + hadamard(b_half, b_weights) + seq![dot(a_half, b_half)],
        g_half + h_half + seq![q],
    )
}

/// The transcript's state after the commitments of a round: `l` under the
/// label `L`, then `r` under the label `R`.
pub open spec fn after_commitments(state: Seq<u8>, l: Seq<u8>, r: Seq<u8>) -> Seq<u8> {
    point_appended(point_appended(state, "L"@, l), "R"@, r)
}

/// The challenge of a round: squeezed under the label `u` after the round's
/// commitments.
pub open spec fn round_challenge(state: Seq<u8>, l: Seq<u8>, r: Seq<u8>) -> nat {
    challenge_value(after_commitments(state, l, r), "u"@)
}

/// The transcript's state after a round.
pub open spec fn after_round(state: Seq<u8>, l: Seq<u8>, r: Seq<u8>) -> Seq<u8> {
    challenge_state(after_commitments(state, l, r), "u"@)
}

/// The end of a round: the commitments `l` and `r` are absorbed, the
/// challenge is squeezed, and the bases `g`, `h` and the witness are folded
/// to half their length.
pub open spec fn fold_step(
    st: ProverState,
    l: Seq<u8>,
    r: Seq<u8>,
    g: Seq<Seq<u8>>,
    h: Seq<Seq<u8>>,
) -> ProverState {
    let u = round_challenge(st.transcript, l, r);
    let u_inv = finv(u);
    ProverState {
        transcript: after_round(st.transcript, l, r),
        l: st.l.push(l),
        r: st.r.push(r),
        g: folded_g(u, u_inv, lo(g), hi(g)),
        h: folded_h(u, u_inv, lo(h), hi(h)),
        a: folded_a(u, u_inv, lo(st.a), hi(st.a)),
        b: folded_b(u, u_inv, lo(st.b), hi(st.b)),
    }
}

/// The first round, on the bases `G[i]` weighted by `g_factors[i]` and
/// `H[i]` weighted by `h_factors[i]`.
pub open spec fn first_round(
    st: ProverState,
    q: Seq<u8>,
    g_factors: Seq<nat>,
    h_factors: Seq<nat>,
) -> ProverState {
    let l = weighted_commitment(
        lo(st.a),
        hi(g_factors),
        hi(st.b),
        lo(h_factors),
        hi(st.g),
        lo(st.h),
        q,
    );
    let r = weighted_commitment(
        hi(st.a),
        lo(g_factors),
        lo(st.b),
        hi(h_factors),
        lo(st.g),
        hi(st.h),
        q,
    );
    fold_step(st, l, r, scaled_points(g_factors, st.g), scaled_points(h_factors, st.h))
}

/// A round after the first.
pub open spec fn later_round(st: ProverState, q: Seq<u8>) -> ProverState {
    let l = commitment(lo(st.a), hi(st.b), hi(st.g), lo(st.h), q);
    let r = commitment(hi(st.a), lo(st.b), lo(st.g), hi(st.h), q);
    fold_step(st, l, r, st.g, st.h)
}

/// All the rounds that are left, until the witness has length one.
pub open spec fn remaining_rounds(st: ProverState, q: Seq<u8>) -> ProverState
    decreases st.a.len(),
{
    if st.a.len() <= 1 {
        st
    } else {
        remaining_rounds(later_round(st, q), q)
    }
}

/// The prover's run from a transcript in `state`: the domain separator, the
/// first round, and the rounds after it.
pub open spec fn proving(
    state: Seq<u8>,
    q: Seq<u8>,
    g_factors: Seq<nat>,
    h_factors: Seq<nat>,
    g: Seq<Seq<u8>>,
    h: Seq<Seq<u8>>,
    a: Seq<nat>,
    b: Seq<nat>,
) -> ProverState {
    let start = ProverState {
        transcript: domain_separated(state, a.len() as u64),
        l: Seq::empty(),
        r: Seq::empty(),
        g,
        h,
        a,
        b,
    };
    if a.len() <= 1 {
        start
    } else {
        remaining_rounds(first_round(start, q, g_factors, h_factors), q)
    }
}

} // verus!
