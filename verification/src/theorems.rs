//! What holds of the proof's encoding and of the prover's runs, stated over
//! the functions of [`crate::inner_product_proof`].

use crate::encoding::{
    decoding, encoding, is_valid_proof, lemma_decoding_of_encoding, lemma_encoding_len, rounds,
};
use crate::inner_product_proof::{proof_of, InnerProductProof};
use crate::point::{is_canonical_point, point_reprs, Point};
use crate::algebra::{hi, lo, scaled_points};
use crate::proving::{
    commitment, first_round, fold_step, later_round, proving, remaining_rounds,
    weighted_commitment, ProverState,
};
use crate::transcript::domain_separated;
use crate::verification::verifier_state;
use crate::scalar::{scalar_values, Scalar};
use crate::transcript::transcript_state;
use merlin::Transcript;
use vstd::prelude::*;

verus! {

/// A well-formed proof of fewer than 32 rounds is one that can be encoded
/// and read back.
pub proof fn lemma_wf_is_valid(p: InnerProductProof)
    requires
        p.wf(),
        p.L_vec@.len() < 32,
    ensures
        is_valid_proof(p@),
{
    p.a.lemma_wf_bound();
    p.b.lemma_wf_bound();
    assert forall|i: int| 0 <= i < p@.l.len() implies is_canonical_point(
        #[trigger] p@.l[i],
    ) by {
        assert(p.L_vec@[i].wf());
    }
    assert forall|i: int| 0 <= i < p@.r.len() implies is_canonical_point(
        #[trigger] p@.r[i],
    ) by {
        assert(p.R_vec@[i].wf());
    }
}

/// Proofs that hold the same encodings and values are equal, field by
/// field.
pub proof fn lemma_equal_views(p: InnerProductProof, q: InnerProductProof)
    requires
        p@ == q@,
    ensures
        p.L_vec@ == q.L_vec@,
        p.R_vec@ == q.R_vec@,
        p.a == q.a,
        p.b == q.b,
{
    p.a.lemma_value_injective(q.a);
    p.b.lemma_value_injective(q.b);
    assert(p.L_vec@.len() == point_reprs(p.L_vec@).len());
    assert(q.L_vec@.len() == point_reprs(q.L_vec@).len());
    assert(p.R_vec@.len() == point_reprs(p.R_vec@).len());
    assert(q.R_vec@.len() == point_reprs(q.R_vec@).len());
    assert forall|i: int| 0 <= i < p.L_vec@.len() implies p.L_vec@[i] == q.L_vec@[i] by {
        assert(point_reprs(p.L_vec@)[i] == point_reprs(q.L_vec@)[i]);
        p.L_vec@[i].lemma_repr_injective(q.L_vec@[i]);
    }
    assert forall|i: int| 0 <= i < p.R_vec@.len() implies p.R_vec@[i] == q.R_vec@[i] by {
        assert(point_reprs(p.R_vec@)[i] == point_reprs(q.R_vec@)[i]);
        p.R_vec@[i].lemma_repr_injective(q.R_vec@[i]);
    }
    assert(p.L_vec@ =~= q.L_vec@);
    assert(p.R_vec@ =~= q.R_vec@);
}

/// Reading the encoding of a proof gives the proof back: the bytes that
/// `to_bytes` gives for `p` are accepted by `from_bytes`, and a proof `q`
/// that it returns for them is equal to `p`, field by field.
pub proof fn lemma_round_trip(p: InnerProductProof, q: InnerProductProof)
    requires
        p.wf(),
        p.L_vec@.len() < 32,
        decoding(encoding(p@)) is None || decoding(encoding(p@)) == Some(q@),
    ensures
        decoding(encoding(p@)) == Some(p@),
        q.L_vec@ == p.L_vec@,
        q.R_vec@ == p.R_vec@,
        q.a == p.a,
        q.b == p.b,
{
    lemma_wf_is_valid(p);
    lemma_decoding_of_encoding(p@);
    lemma_equal_views(p, q);
}

/// The encoding of a proof of `k` rounds takes `2 * k * 32 + 2 * 32` bytes,
/// the number that `serialized_size` gives.
pub proof fn lemma_encoded_size(p: InnerProductProof)
    requires
        p.L_vec@.len() == p.R_vec@.len(),
    ensures
        encoding(p@).len() == 2 * p.L_vec@.len() * 32 + 2 * 32,
{
    assert(rounds(p@) == p.L_vec@.len());
    assert forall|i: int| 0 <= i < rounds(p@) implies (#[trigger] p@.l[i]).len() == 32 by {
        p.L_vec@[i].lemma_len();
    }
    assert forall|i: int| 0 <= i < rounds(p@) implies (#[trigger] p@.r[i]).len() == 32 by {
        p.R_vec@[i].lemma_len();
    }
    lemma_encoding_len(p@);
}

/// Two runs of `create` on the same inputs, from transcripts in the same
/// state, give proofs that are equal field by field and byte for byte.
pub proof fn lemma_create_is_deterministic(
    before_first: Transcript,
    before_second: Transcript,
    q: Point,
    g_factors: Seq<Scalar>,
    h_factors: Seq<Scalar>,
    g: Seq<Point>,
    h: Seq<Point>,
    a: Seq<Scalar>,
    b: Seq<Scalar>,
    first: InnerProductProof,
    second: InnerProductProof,
)
    requires
        transcript_state(before_first) == transcript_state(before_second),
        first@ == proof_of(
            proving(
                transcript_state(before_first),
                q@,
                scalar_values(g_factors),
                scalar_values(h_factors),
                point_reprs(g),
                point_reprs(h),
                scalar_values(a),
                scalar_values(b),
            ),
        ),
        second@ == proof_of(
            proving(
                transcript_state(before_second),
                q@,
                scalar_values(g_factors),
                scalar_values(h_factors),
                point_reprs(g),
                point_reprs(h),
                scalar_values(a),
                scalar_values(b),
            ),
        ),
    ensures
        encoding(first@) == encoding(second@),
        first.L_vec@ == second.L_vec@,
        first.R_vec@ == second.R_vec@,
        first.a == second.a,
        first.b == second.b,
{
    lemma_equal_views(first, second);
}

/// The state in which the verifier's transcript stands after the first
/// `j` rounds does not depend on the rounds after them.
proof fn lemma_verifier_state_of_prefix(
    state: Seq<u8>,
    l: Seq<Seq<u8>>,
    r: Seq<Seq<u8>>,
    x: Seq<u8>,
    y: Seq<u8>,
    j: nat,
)
    requires
        j <= l.len(),
        j <= r.len(),
    ensures
        verifier_state(state, l.push(x), r.push(y), j) == verifier_state(state, l, r, j),
    decreases j,
{
    if j > 0 {
        lemma_verifier_state_of_prefix(state, l, r, x, y, (j - 1) as nat);
        assert(l.push(x)[j - 1] == l[j - 1]);
        assert(r.push(y)[j - 1] == r[j - 1]);
    }
}

/// The prover's transcript stands where the verifier's will stand after the
/// rounds that the prover has made so far, from `start` on.
pub open spec fn in_step(start: Seq<u8>, st: ProverState) -> bool {
    st.l.len() == st.r.len() && st.transcript == verifier_state(start, st.l, st.r, st.l.len())
}

proof fn lemma_fold_step_keeps_in_step(
    start: Seq<u8>,
    st: ProverState,
    l: Seq<u8>,
    r: Seq<u8>,
    g: Seq<Seq<u8>>,
    h: Seq<Seq<u8>>,
)
    requires
        in_step(start, st),
    ensures
        in_step(start, fold_step(st, l, r, g, h)),
{
    lemma_verifier_state_of_prefix(start, st.l, st.r, l, r, st.l.len());
}

proof fn lemma_remaining_rounds_keep_in_step(start: Seq<u8>, st: ProverState, q: Seq<u8>)
    requires
        in_step(start, st),
    ensures
        in_step(start, remaining_rounds(st, q)),
    decreases st.a.len(),
{
    if st.a.len() > 1 {
        let l = commitment(lo(st.a), hi(st.b), hi(st.g), lo(st.h), q);
        let r = commitment(hi(st.a), lo(st.b), lo(st.g), hi(st.h), q);
        lemma_fold_step_keeps_in_step(start, st, l, r, st.g, st.h);
        lemma_remaining_rounds_keep_in_step(start, later_round(st, q), q);
    }
}

/// The verifier follows the prover: on the commitments that the prover
/// hands out, the verifier's transcript goes through the states that the
/// prover's went through, and ends where the prover's ended. So both draw
/// the same challenges.
pub proof fn lemma_verifier_follows_prover(
    state: Seq<u8>,
    q: Seq<u8>,
    g_factors: Seq<nat>,
    h_factors: Seq<nat>,
    g: Seq<Seq<u8>>,
    h: Seq<Seq<u8>>,
    a: Seq<nat>,
    b: Seq<nat>,
)
    ensures
        in_step(
            domain_separated(state, a.len() as u64),
            proving(state, q, g_factors, h_factors, g, h, a, b),
        ),
{
    let start = domain_separated(state, a.len() as u64);
    let st = ProverState {
        transcript: start,
        l: Seq::empty(),
        r: Seq::empty(),
        g,
        h,
        a,
        b,
    };
    assert(in_step(start, st));
    if a.len() > 1 {
        let l = weighted_commitment(
            lo(a),
            hi(g_factors),
            hi(b),
            lo(h_factors),
            hi(g),
            lo(h),
            q,
        );
        let r = weighted_commitment(
            hi(a),
            lo(g_factors),
            lo(b),
            hi(h_factors),
            lo(g),
            hi(h),
            q,
        );
        lemma_fold_step_keeps_in_step(
            start,
            st,
            l,
            r,
            scaled_points(g_factors, g),
            scaled_points(h_factors, h),
        );
        lemma_remaining_rounds_keep_in_step(start, first_round(st, q, g_factors, h_factors), q);
    }
}

} // verus!
