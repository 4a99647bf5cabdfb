//! The inner-product argument: a proof that two committed vectors have a
//! given inner product, of a size logarithmic in their length.

#![allow(non_snake_case)]

use crate::algebra::{dot, folded_a, folded_b, folded_g, folded_h, is_power_of_two, product};
use crate::encoding::{
    chunk, decoding, encoded_pairs, encoding, framed_rounds, points_decode, rounds, ProofView,
};
use crate::errors::ProofError;
use crate::field::{fmul, is_unit};
use crate::point::{
    is_identity_encoding, msm, point_decoding, point_reprs, points_wf, Point, POINT_BYTES,
};
use crate::proving::{first_round, later_round, proving, remaining_rounds, ProverState};
use crate::s_vector::{all_units, lemma_s_entries_are_reciprocal};
use crate::scalar::{field_product, field_sum, scalar_values, scalars_wf, Scalar, SCALAR_BYTES};
use crate::transcript::{
    append_point, challenge_scalar, domain_separated, innerproduct_domain_sep, transcript_state,
    validate_and_append_point,
};
use crate::vectors::{
    chain_points, chain_scalars, entrywise_product, extend_points, extend_scalars, negate_all,
    point_range, scalar_range, scale_points,
};
use crate::verification::{
    accepts, fits, g_scalars, h_scalars, inverses, lemma_floor_log2_is, proof_challenges,
    round_challenges, s_entry, s_vector, squares, verifier_state,
};
use merlin::Transcript;
use rayon::iter::{IndexedParallelIterator, IntoParallelIterator, ParallelIterator};
use vstd::arithmetic::power2::{
    lemma2_to64, lemma_pow2_pos, lemma_pow2_strictly_increases, lemma_pow2_unfold, pow2,
};
use vstd::prelude::*;
use vstd::slice::slice_subrange;
use vstd::std_specs::iter::IteratorSpec;
use vstd::std_specs::vec::axiom_spec_into_iter;

verus! {

/// A proof that the prover knows two vectors with a given inner product.
#[derive(Clone, Debug, PartialEq, Eq)]
pub struct InnerProductProof {
    pub L_vec: Vec<Point>,
    pub R_vec: Vec<Point>,
    pub a: Scalar,
    pub b: Scalar,
}

impl View for InnerProductProof {
    type V = ProofView;

    open spec fn view(&self) -> ProofView {
        ProofView {
            l: point_reprs(self.L_vec@),
            r: point_reprs(self.R_vec@),
            a: self.a@,
            b: self.b@,
        }
    }
}

/// The length of the halves from which folding is handed out to threads.
pub const PARALLELISM_THRESHOLD: usize = 10;

/// The halves that a folding step takes have one length, and their points
/// are points of the group.
pub open spec fn fold_inputs_fit(
    a_L: Seq<Scalar>,
    a_R: Seq<Scalar>,
    b_L: Seq<Scalar>,
    b_R: Seq<Scalar>,
    G_L: Seq<Point>,
    G_R: Seq<Point>,
    H_L: Seq<Point>,
    H_R: Seq<Point>,
) -> bool {
    &&& a_R.len() == a_L.len()
    &&& b_L.len() == a_L.len()
    &&& b_R.len() == a_L.len()
    &&& G_L.len() == a_L.len()
    &&& G_R.len() == a_L.len()
    &&& H_L.len() == a_L.len()
    &&& H_R.len() == a_L.len()
    &&& points_wf(G_L)
    &&& points_wf(G_R)
    &&& points_wf(H_L)
    &&& points_wf(H_R)
}

/// `e` holds the entries at index `i` of the folded `a`, `b`, `G` and `H`.
pub open spec fn is_fold_entry(
    e: (Scalar, Scalar, Point, Point),
    u: Scalar,
    u_inv: Scalar,
    a_L: Seq<Scalar>,
    a_R: Seq<Scalar>,
    b_L: Seq<Scalar>,
    b_R: Seq<Scalar>,
    G_L: Seq<Point>,
    G_R: Seq<Point>,
    H_L: Seq<Point>,
    H_R: Seq<Point>,
    i: int,
) -> bool {
    &&& e.0.wf()
    &&& e.1.wf()
    &&& e.2.wf()
    &&& e.3.wf()
    &&& e.0@ == folded_a(u@, u_inv@, scalar_values(a_L), scalar_values(a_R))[i]
    &&& e.1@ == folded_b(u@, u_inv@, scalar_values(b_L), scalar_values(b_R))[i]
    &&& e.2@ == folded_g(u@, u_inv@, point_reprs(G_L), point_reprs(G_R))[i]
    &&& e.3@ == folded_h(u@, u_inv@, point_reprs(H_L), point_reprs(H_R))[i]
}

/// `collect_into_vec` of rayon on the indices of the halves, each mapped by
/// [`InnerProductProof::fold_entry`]: the vector holds, at each index, what
/// that function returns for it.
#[verifier::external_body]
fn fold_entries_in_parallel(
    u: Scalar,
    u_inv: Scalar,
    a_L: &[Scalar],
    a_R: &[Scalar],
    b_L: &[Scalar],
    b_R: &[Scalar],
    G_L: &[Point],
    G_R: &[Point],
    H_L: &[Point],
    H_R: &[Point],
) -> (r: Vec<(Scalar, Scalar, Point, Point)>)
    requires
        fold_inputs_fit(a_L@, a_R@, b_L@, b_R@, G_L@, G_R@, H_L@, H_R@),
    ensures
        r@.len() == a_L@.len(),
        forall|i: int|
            0 <= i < r@.len() ==> is_fold_entry(
                #[trigger] r@[i],
                u,
                u_inv,
                a_L@,
                a_R@,
                b_L@,
                b_R@,
                G_L@,
                G_R@,
                H_L@,
                H_R@,
                i,
            ),
{
    let mut res = Vec::with_capacity(a_L.len());
    (0..a_L.len())
        .into_par_iter()
        .map(|i| InnerProductProof::fold_entry(u, u_inv, a_L, a_R, b_L, b_R, G_L, G_R, H_L, H_R, i))
        .collect_into_vec(&mut res);
    res
}

/// The prover's state that the working vectors stand for.
pub open spec fn state_of(
    transcript: Seq<u8>,
    l: Seq<Point>,
    r: Seq<Point>,
    g: Seq<Point>,
    h: Seq<Point>,
    a: Seq<Scalar>,
    b: Seq<Scalar>,
) -> ProverState {
    ProverState {
        transcript,
        l: point_reprs(l),
        r: point_reprs(r),
        g: point_reprs(g),
        h: point_reprs(h),
        a: scalar_values(a),
        b: scalar_values(b),
    }
}

/// The proof that the prover hands out at the end of its run: the
/// commitments of all rounds and the two scalars that are left.
pub open spec fn proof_of(st: ProverState) -> ProofView {
    ProofView { l: st.l, r: st.r, a: st.a[0], b: st.b[0] }
}

/// Computes the inner product of two vectors of scalars.
pub fn inner_product(a: &[Scalar], b: &[Scalar]) -> (r: Scalar)
    requires
        a@.len() == b@.len(),
    ensures
        r.wf(),
        r@ == dot(scalar_values(a@), scalar_values(b@)),
{
    let mut out = Scalar::from_u64(0);
    let mut i: usize = 0;
    while i < a.len()
        invariant
            i <= a@.len(),
            a@.len() == b@.len(),
            out.wf(),
            out@ == dot(scalar_values(a@).take(i as int), scalar_values(b@).take(i as int)),
        decreases a@.len() - i,
    {
        let term = field_product(&a[i], &b[i]);
        out = field_sum(&out, &term);
        i += 1;
        proof {
            let x = scalar_values(a@).take(i as int);
            let y = scalar_values(b@).take(i as int);
            assert(x.drop_last() =~= scalar_values(a@).take(i - 1));
            assert(y.drop_last() =~= scalar_values(b@).take(i - 1));
        }
    }
    proof {
        assert(scalar_values(a@).take(i as int) =~= scalar_values(a@));
        assert(scalar_values(b@).take(i as int) =~= scalar_values(b@));
    }
    out
}

impl InnerProductProof {
    /// The proof has as many `L` as `R`, its points are points of the group
    /// and its scalars are reduced.
    pub open spec fn wf(&self) -> bool {
        &&& self.L_vec@.len() == self.R_vec@.len()
        &&& points_wf(self.L_vec@)
        &&& points_wf(self.R_vec@)
        &&& self.a.wf()
        &&& self.b.wf()
    }

    /// Creates an inner-product proof for the witness `a_vec`, `b_vec` on the
    /// bases `G_vec[i]` weighted by `G_factors[i]` and `H_vec[i]` weighted by
    /// `H_factors[i]`, with `Q` as the base of the inner product.
    ///
    /// The challenges are drawn from `transcript`, so that they depend on
    /// all that it has absorbed before. The vectors must have one length, a
    /// power of two.
    pub fn create(
        transcript: &mut Transcript,
        Q: &Point,
        G_factors: &[Scalar],
        H_factors: &[Scalar],
        G_vec: Vec<Point>,
        H_vec: Vec<Point>,
        a_vec: Vec<Scalar>,
        b_vec: Vec<Scalar>,
    ) -> (proof: InnerProductProof)
        requires
            is_power_of_two(G_vec@.len()),
            H_vec@.len() == G_vec@.len(),
            a_vec@.len() == G_vec@.len(),
            b_vec@.len() == G_vec@.len(),
            G_factors@.len() == G_vec@.len(),
            H_factors@.len() == G_vec@.len(),
            Q.wf(),
            points_wf(G_vec@),
            points_wf(H_vec@),
            scalars_wf(a_vec@),
            scalars_wf(b_vec@),
        ensures
            proof@ == proof_of(
                proving(
                    transcript_state(*old(transcript)),
                    Q@,
                    scalar_values(G_factors@),
                    scalar_values(H_factors@),
                    point_reprs(G_vec@),
                    point_reprs(H_vec@),
                    scalar_values(a_vec@),
                    scalar_values(b_vec@),
                ),
            ),
            transcript_state(*final(transcript)) == proving(
                transcript_state(*old(transcript)),
                Q@,
                scalar_values(G_factors@),
                scalar_values(H_factors@),
                point_reprs(G_vec@),
                point_reprs(H_vec@),
                scalar_values(a_vec@),
                scalar_values(b_vec@),
            ).transcript,
            proof.wf(),
            pow2(proof.L_vec@.len() as nat) == G_vec@.len(),
    {
        let mut G = G_vec;
        let mut H = H_vec;
        let mut a = a_vec;
        let mut b = b_vec;
        let mut n = G.len();
        let ghost n0 = n as nat;
        let ghost goal = proving(
            transcript_state(*transcript),
            Q@,
            scalar_values(G_factors@),
            scalar_values(H_factors@),
            point_reprs(G@),
            point_reprs(H@),
            scalar_values(a@),
            scalar_values(b@),
        );

        innerproduct_domain_sep(transcript, n as u64);

        let mut L_vec: Vec<Point> = Vec::new();
        let mut R_vec: Vec<Point> = Vec::new();
        proof {
            assert(point_reprs(L_vec@) =~= Seq::<Seq<u8>>::empty());
            assert(point_reprs(R_vec@) =~= Seq::<Seq<u8>>::empty());
            lemma2_to64();
        }

        // The first round multiplies the weights of the bases into the
        // scalars of the two commitments.
        if n != 1 {
            let ghost st = state_of(transcript_state(*transcript), L_vec@, R_vec@, G@, H@, a@, b@);
            n = n / 2;
            let a_L = scalar_range(a.as_slice(), 0, n);
            let a_R = scalar_range(a.as_slice(), n, 2 * n);
            let b_L = scalar_range(b.as_slice(), 0, n);
            let b_R = scalar_range(b.as_slice(), n, 2 * n);
            let G_L = point_range(G.as_slice(), 0, n);
            let G_R = point_range(G.as_slice(), n, 2 * n);
            let H_L = point_range(H.as_slice(), 0, n);
            let H_R = point_range(H.as_slice(), n, 2 * n);
            let Gf_L = scalar_range(G_factors, 0, n);
            let Gf_R = scalar_range(G_factors, n, 2 * n);
            let Hf_L = scalar_range(H_factors, 0, n);
            let Hf_R = scalar_range(H_factors, n, 2 * n);

            let c_L = inner_product(a_L, b_R);
            let c_R = inner_product(a_R, b_L);

            let L_left = entrywise_product(a_L, Gf_R);
            let L_right = entrywise_product(b_R, Hf_L);
            let L_scalars = chain_scalars(L_left.as_slice(), L_right.as_slice(), c_L);
            let L_points = chain_points(G_R, H_L, *Q);
            let L = msm(L_scalars.as_slice(), L_points.as_slice());

            let R_left = entrywise_product(a_R, Gf_L);
            let R_right = entrywise_product(b_L, Hf_R);
            let R_scalars = chain_scalars(R_left.as_slice(), R_right.as_slice(), c_R);
            let R_points = chain_points(G_L, H_R, *Q);
            let R = msm(R_scalars.as_slice(), R_points.as_slice());

            L_vec.push(L);
            R_vec.push(R);

            append_point(transcript, "L", &L);
            append_point(transcript, "R", &R);

            let u = challenge_scalar(transcript, "u");
            let u_inv = u.inverse();

            let G_weighted = scale_points(G_factors, G.as_slice());
            let H_weighted = scale_points(H_factors, H.as_slice());
            let (a_next, b_next, G_next, H_next) = Self::fold_witness(
                u,
                u_inv,
                a_L,
                a_R,
                b_L,
                b_R,
                point_range(G_weighted.as_slice(), 0, n),
                point_range(G_weighted.as_slice(), n, 2 * n),
                point_range(H_weighted.as_slice(), 0, n),
                point_range(H_weighted.as_slice(), n, 2 * n),
            );
            a = a_next;
            b = b_next;
            G = G_next;
            H = H_next;
            proof {
                let next = state_of(transcript_state(*transcript), L_vec@, R_vec@, G@, H@, a@, b@);
                let want = first_round(
                    st,
                    Q@,
                    scalar_values(G_factors@),
                    scalar_values(H_factors@),
                );
                assert(next.l =~= want.l);
                assert(next.r =~= want.r);
                assert(next == want);
                lemma_pow2_unfold(1);
            }
        }
        while n != 1
            invariant
                n >= 1,
                is_power_of_two(n as nat),
                a@.len() == n,
                b@.len() == n,
                G@.len() == n,
                H@.len() == n,
                L_vec@.len() == R_vec@.len(),
                n * pow2(L_vec@.len() as nat) == n0,
                Q.wf(),
                points_wf(G@),
                points_wf(H@),
                points_wf(L_vec@),
                points_wf(R_vec@),
                scalars_wf(a@),
                scalars_wf(b@),
                goal == remaining_rounds(
                    state_of(transcript_state(*transcript), L_vec@, R_vec@, G@, H@, a@, b@),
                    Q@,
                ),
            decreases n,
        {
            let ghost st = state_of(transcript_state(*transcript), L_vec@, R_vec@, G@, H@, a@, b@);
            let ghost rounds = L_vec@.len() as nat;
            n = n / 2;
            let a_L = scalar_range(a.as_slice(), 0, n);
            let a_R = scalar_range(a.as_slice(), n, 2 * n);
            let b_L = scalar_range(b.as_slice(), 0, n);
            let b_R = scalar_range(b.as_slice(), n, 2 * n);
            let G_L = point_range(G.as_slice(), 0, n);
            let G_R = point_range(G.as_slice(), n, 2 * n);
            let H_L = point_range(H.as_slice(), 0, n);
            let H_R = point_range(H.as_slice(), n, 2 * n);

            let c_L = inner_product(a_L, b_R);
            let c_R = inner_product(a_R, b_L);

            let L_scalars = chain_scalars(a_L, b_R, c_L);
            let L_points = chain_points(G_R, H_L, *Q);
            let L = msm(L_scalars.as_slice(), L_points.as_slice());

            let R_scalars = chain_scalars(a_R, b_L, c_R);
            let R_points = chain_points(G_L, H_R, *Q);
            let R = msm(R_scalars.as_slice(), R_points.as_slice());

            L_vec.push(L);
            R_vec.push(R);

            append_point(transcript, "L", &L);
            append_point(transcript, "R", &R);

            let u = challenge_scalar(transcript, "u");
            let u_inv = u.inverse();

            let (a_next, b_next, G_next, H_next) = Self::fold_witness(
                u,
                u_inv,
                a_L,
                a_R,
                b_L,
                b_R,
                G_L,
                G_R,
                H_L,
                H_R,
            );
            a = a_next;
            b = b_next;
            G = G_next;
            H = H_next;
            proof {
                let next = state_of(transcript_state(*transcript), L_vec@, R_vec@, G@, H@, a@, b@);
                let want = later_round(st, Q@);
                assert(next.l =~= want.l);
                assert(next.r =~= want.r);
                assert(next == want);
                lemma_pow2_unfold(rounds + 1);
                assert(n * pow2(rounds + 1) == n0) by (nonlinear_arith)
                    requires
                        (2 * n) * pow2(rounds) == n0,
                        pow2(rounds + 1) == 2 * pow2(rounds),
                ;
            }
        }
        proof {
            assert(1 * pow2(L_vec@.len() as nat) == pow2(L_vec@.len() as nat)) by (nonlinear_arith);
        }
        InnerProductProof { L_vec, R_vec, a: a[0], b: b[0] }
    }

    /// Computes the three vectors of scalars that verify the proof in one
    /// multiscalar multiplication: the squares of the challenges, the
    /// squares of their inverses, and the vector `s`.
    ///
    /// The length `n` of the vectors that the proof is about is given by the
    /// caller, so that the proof cannot ask for more work than that.
    pub fn verification_scalars(&self, n: usize, transcript: &mut Transcript) -> (r: Result<
        (Vec<Scalar>, Vec<Scalar>, Vec<Scalar>),
        ProofError,
    >)
        requires
            self.wf(),
        ensures
            match r {
                Ok(v) => {
                    let ch = proof_challenges(
                        transcript_state(*old(transcript)),
                        self@.l,
                        self@.r,
                        n as nat,
                    );
                    &&& fits(self@.l, self@.r, n as nat)
                    &&& scalar_values(v.0@) == squares(ch)
                    &&& scalar_values(v.1@) == squares(inverses(ch))
                    &&& scalar_values(v.2@) == s_vector(ch, n as nat)
                    &&& v.0@.len() == self.L_vec@.len()
                    &&& v.1@.len() == self.L_vec@.len()
                    &&& v.2@.len() == n
                    &&& scalars_wf(v.0@)
                    &&& scalars_wf(v.1@)
                    &&& scalars_wf(v.2@)
                    &&& transcript_state(*final(transcript)) == verifier_state(
                        domain_separated(transcript_state(*old(transcript)), n as u64),
                        self@.l,
                        self@.r,
                        self@.l.len(),
                    )
                    &&& (forall|j: int| 0 <= j < ch.len() ==> ch[j] != 0) ==> forall|i: int|
                        0 <= i < n ==> fmul(#[trigger] v.2@[i]@, v.2@[n - 1 - i]@) == 1
                },
                Err(e) => e == ProofError::VerificationError && !fits(self@.l, self@.r, n as nat),
            },
    {
        let lg_n = self.L_vec.len();
        if lg_n >= 32 {
            // Four billion multiplications are enough for anyone, and the
            // bound keeps two to the power `lg_n` within the machine word.
            return Err(ProofError::VerificationError);
        }
        let mut size: usize = 1;
        let mut j: usize = 0;
        proof {
            lemma2_to64();
        }
        while j < lg_n
            invariant
                j <= lg_n < 32,
                size == pow2(j as nat),
            decreases lg_n - j,
        {
            proof {
                lemma_pow2_unfold((j + 1) as nat);
                lemma2_to64();
                if j < 30 {
                    lemma_pow2_strictly_increases(j as nat, 30);
                }
            }
            size = size * 2;
            j += 1;
        }
        if n != size {
            return Err(ProofError::VerificationError);
        }
        let ghost l = self@.l;
        let ghost r = self@.r;
        let ghost ds = domain_separated(transcript_state(*transcript), n as u64);
        let ghost ch = round_challenges(ds, l, r);

        innerproduct_domain_sep(transcript, n as u64);

        // The challenges, in the order of the rounds.
        let mut challenges: Vec<Scalar> = Vec::with_capacity(lg_n);
        let mut challenges_inv: Vec<Scalar> = Vec::with_capacity(lg_n);
        let mut i: usize = 0;
        while i < lg_n
            invariant
                i <= lg_n,
                lg_n == self.L_vec@.len(),
                self.wf(),
                l == self@.l,
                r == self@.r,
                ch == round_challenges(ds, l, r),
                challenges@.len() == i,
                challenges_inv@ == challenges@,
                scalars_wf(challenges@),
                transcript_state(*transcript) == verifier_state(ds, l, r, i as nat),
                forall|j: int| 0 <= j < i ==> (#[trigger] challenges@[j])@ == ch[j],
                forall|j: int|
                    0 <= j < i ==> !is_identity_encoding(#[trigger] l[j]) && !is_identity_encoding(
                        r[j],
                    ),
            decreases lg_n - i,
        {
            let L = self.L_vec[i];
            let R = self.R_vec[i];
            assert(l[i as int] == L@ && r[i as int] == R@);
            match validate_and_append_point(transcript, "L", &L) {
                Err(e) => {
                    return Err(e);
                },
                Ok(_) => {},
            }
            match validate_and_append_point(transcript, "R", &R) {
                Err(e) => {
                    return Err(e);
                },
                Ok(_) => {},
            }
            let u = challenge_scalar(transcript, "u");
            challenges.push(u);
            challenges_inv.push(u);
            i += 1;
        }
        assert(scalar_values(challenges@) =~= ch);

        // The inverses of the challenges, and the product of them all.
        Scalar::batch_inverse(&mut challenges_inv);
        assert(scalar_values(challenges_inv@) =~= inverses(ch));
        assert((forall|j: int| 0 <= j < ch.len() ==> ch[j] != 0) ==> all_units(ch)) by {
            if forall|j: int| 0 <= j < ch.len() ==> ch[j] != 0 {
                assert forall|t: int| 0 <= t < ch.len() implies is_unit(#[trigger] ch[t]) by {
                    assert(challenges@[t]@ == ch[t]);
                }
            }
        }
        let mut allinv = Scalar::one();
        let mut i: usize = 0;
        while i < lg_n
            invariant
                i <= lg_n,
                challenges_inv@.len() == lg_n,
                scalar_values(challenges_inv@) == inverses(ch),
                allinv.wf(),
                allinv@ == product(inverses(ch).take(i as int)),
            decreases lg_n - i,
        {
            allinv = field_product(&allinv, &challenges_inv[i]);
            i += 1;
            proof {
                assert(inverses(ch).take(i as int).drop_last() =~= inverses(ch).take(i - 1));
                assert(inverses(ch)[i - 1] == scalar_values(challenges_inv@)[i - 1]);
            }
        }
        assert(inverses(ch).take(lg_n as int) =~= inverses(ch));

        // The squares of the challenges and of their inverses.
        let mut challenges_sq: Vec<Scalar> = Vec::with_capacity(lg_n);
        let mut challenges_inv_sq: Vec<Scalar> = Vec::with_capacity(lg_n);
        let mut i: usize = 0;
        while i < lg_n
            invariant
                i <= lg_n,
                challenges@.len() == lg_n,
                challenges_inv@.len() == lg_n,
                scalar_values(challenges@) == ch,
                scalar_values(challenges_inv@) == inverses(ch),
                challenges_sq@.len() == i,
                challenges_inv_sq@.len() == i,
                scalars_wf(challenges_sq@),
                scalars_wf(challenges_inv_sq@),
                forall|j: int| 0 <= j < i ==> (#[trigger] challenges_sq@[j])@ == squares(ch)[j],
                forall|j: int|
                    0 <= j < i ==> (#[trigger] challenges_inv_sq@[j])@ == squares(inverses(ch))[j],
            decreases lg_n - i,
        {
            assert(scalar_values(challenges@)[i as int] == ch[i as int]);
            assert(scalar_values(challenges_inv@)[i as int] == inverses(ch)[i as int]);
            challenges_sq.push(field_product(&challenges[i], &challenges[i]));
            challenges_inv_sq.push(field_product(&challenges_inv[i], &challenges_inv[i]));
            i += 1;
        }
        assert(scalar_values(challenges_sq@) =~= squares(ch));
        assert(scalar_values(challenges_inv_sq@) =~= squares(inverses(ch)));

        // The vector `s`, each entry from the one without its highest bit.
        let mut s: Vec<Scalar> = Vec::with_capacity(n);
        s.push(allinv);
        proof {
            lemma_pow2_pos(lg_n as nat);
        }
        let mut lg_i: usize = 0;
        let mut k: usize = 1;
        let mut i: usize = 1;
        while i < n
            invariant
                1 <= i <= n,
                n == pow2(lg_n as nat),
                lg_n < 32,
                ch.len() == lg_n,
                k == pow2(lg_i as nat),
                k <= i,
                i <= 2 * k,
                i < n ==> lg_i < lg_n,
                challenges_sq@.len() == lg_n,
                scalar_values(challenges_sq@) == squares(ch),
                s@.len() == i,
                scalars_wf(s@),
                forall|j: int| 0 <= j < i ==> (#[trigger] s@[j])@ == s_entry(ch, j as nat),
            decreases n - i,
        {
            proof {
                lemma_pow2_unfold((lg_i + 1) as nat);
                if lg_i + 1 < lg_n {
                    lemma_pow2_strictly_increases((lg_i + 1) as nat, lg_n as nat);
                }
            }
            if i == 2 * k {
                lg_i = lg_i + 1;
                k = 2 * k;
                proof {
                    lemma_pow2_unfold(lg_i as nat);
                    if lg_i >= lg_n {
                        if lg_i > lg_n {
                            lemma_pow2_strictly_increases(lg_n as nat, lg_i as nat);
                        }
                    }
                }
            }
            proof {
                lemma_pow2_unfold((lg_i + 1) as nat);
                lemma_floor_log2_is(i as nat, lg_i as nat);
                assert(squares(ch)[lg_n - 1 - lg_i] == scalar_values(challenges_sq@)[lg_n - 1
                    - lg_i]);
            }
            let u_lg_i_sq = challenges_sq[(lg_n - 1) - lg_i];
            let next = field_product(&s[i - k], &u_lg_i_sq);
            s.push(next);
            i += 1;
            proof {
                if i < n && i == 2 * k {
                    if lg_i + 1 >= lg_n {
                        lemma_pow2_unfold((lg_i + 1) as nat);
                        if lg_i + 1 > lg_n {
                            lemma_pow2_strictly_increases(lg_n as nat, (lg_i + 1) as nat);
                        }
                    }
                }
            }
        }
        proof {
            assert(scalar_values(s@) =~= s_vector(ch, n as nat));
            if all_units(ch) {
                assert forall|i: int| 0 <= i < n implies fmul(
                    #[trigger] s@[i]@,
                    s@[n - 1 - i]@,
                ) == 1 by {
                    lemma_s_entries_are_reciprocal(ch, (n - 1 - i) as nat);
                }
            }
        }
        Ok((challenges_sq, challenges_inv_sq, s))
    }

    /// Verifies the proof for the commitment `P` on the bases `G[i]` weighted
    /// by `G_factors[i]`, `H[i]` weighted by `H_factors[i]`, and `Q`.
    ///
    /// A protocol that holds more than this argument would rather take the
    /// scalars of [`Self::verification_scalars`] into one multiscalar
    /// multiplication of its own.
    pub fn verify(
        &self,
        n: usize,
        transcript: &mut Transcript,
        G_factors: &[Scalar],
        H_factors: &[Scalar],
        P: &Point,
        Q: &Point,
        G: &[Point],
        H: &[Point],
    ) -> (r: Result<(), ProofError>)
        requires
            self.wf(),
            G_factors@.len() == n,
            H_factors@.len() == n,
            G@.len() == n,
            H@.len() == n,
            Q.wf(),
            points_wf(G@),
            points_wf(H@),
        ensures
            r is Ok <==> accepts(
                transcript_state(*old(transcript)),
                n as nat,
                self@.l,
                self@.r,
                self@.a,
                self@.b,
                scalar_values(G_factors@),
                scalar_values(H_factors@),
                P@,
                Q@,
                point_reprs(G@),
                point_reprs(H@),
            ),
            r is Err ==> r == Err::<(), ProofError>(ProofError::VerificationError),
            r is Ok ==> transcript_state(*final(transcript)) == verifier_state(
                domain_separated(transcript_state(*old(transcript)), n as u64),
                self@.l,
                self@.r,
                self@.l.len(),
            ),
    {
        let ghost ch = proof_challenges(
            transcript_state(*transcript),
            self@.l,
            self@.r,
            n as nat,
        );
        let (u_sq, u_inv_sq, s) = match self.verification_scalars(n, transcript) {
            Ok(v) => v,
            Err(e) => {
                return Err(e);
            },
        };
        let ghost sv = s_vector(ch, n as nat);
        let ghost gf = scalar_values(G_factors@);
        let ghost hf = scalar_values(H_factors@);

        let mut g_times_a_times_s: Vec<Scalar> = Vec::with_capacity(n);
        let mut i: usize = 0;
        while i < n
            invariant
                i <= n,
                s@.len() == n,
                G_factors@.len() == n,
                scalar_values(s@) == sv,
                gf == scalar_values(G_factors@),
                g_times_a_times_s@.len() == i,
                forall|j: int|
                    0 <= j < i ==> (#[trigger] g_times_a_times_s@[j])@ == g_scalars(
                        self.a@,
                        sv,
                        gf,
                    )[j],
            decreases n - i,
        {
            assert(scalar_values(s@)[i as int] == s@[i as int]@);
            assert(gf[i as int] == G_factors@[i as int]@);
            let a_s = field_product(&self.a, &s[i]);
            g_times_a_times_s.push(field_product(&a_s, &G_factors[i]));
            i += 1;
        }
        assert(scalar_values(g_times_a_times_s@) =~= g_scalars(self.a@, sv, gf));

        // The inverse of `s[i]` is `s[n - 1 - i]`: the vector read from its end.
        let mut h_times_b_div_s: Vec<Scalar> = Vec::with_capacity(n);
        let mut i: usize = 0;
        while i < n
            invariant
                i <= n,
                s@.len() == n,
                H_factors@.len() == n,
                scalar_values(s@) == sv,
                hf == scalar_values(H_factors@),
                h_times_b_div_s@.len() == i,
                forall|j: int|
                    0 <= j < i ==> (#[trigger] h_times_b_div_s@[j])@ == h_scalars(
                        self.b@,
                        sv,
                        hf,
                    )[j],
            decreases n - i,
        {
            assert(scalar_values(s@)[n - 1 - i] == s@[n - 1 - i]@);
            assert(hf[i as int] == H_factors@[i as int]@);
            let b_s = field_product(&self.b, &s[n - 1 - i]);
            h_times_b_div_s.push(field_product(&b_s, &H_factors[i]));
            i += 1;
        }
        assert(scalar_values(h_times_b_div_s@) =~= h_scalars(self.b@, sv, hf));

        let neg_u_sq = negate_all(u_sq.as_slice());
        let neg_u_inv_sq = negate_all(u_inv_sq.as_slice());

        let mut scalars: Vec<Scalar> = Vec::new();
        scalars.push(field_product(&self.a, &self.b));
        assert(scalar_values(scalars@) =~= seq![fmul(self.a@, self.b@)]);
        extend_scalars(&mut scalars, g_times_a_times_s.as_slice());
        extend_scalars(&mut scalars, h_times_b_div_s.as_slice());
        extend_scalars(&mut scalars, neg_u_sq.as_slice());
        extend_scalars(&mut scalars, neg_u_inv_sq.as_slice());

        let mut points: Vec<Point> = Vec::new();
        points.push(*Q);
        assert(point_reprs(points@) =~= seq![Q@]);
        extend_points(&mut points, G);
        extend_points(&mut points, H);
        extend_points(&mut points, self.L_vec.as_slice());
        extend_points(&mut points, self.R_vec.as_slice());

        let expect_P = msm(scalars.as_slice(), points.as_slice());

        if expect_P.equals(P) {
            Ok(())
        } else {
            Err(ProofError::VerificationError)
        }
    }

    /// The number of bytes that the encoding of the proof takes: 32 for each
    /// point and for each of the two scalars.
    pub fn serialized_size(&self) -> (r: usize)
        requires
            2 * self.L_vec@.len() * POINT_BYTES + 2 * SCALAR_BYTES <= usize::MAX,
        ensures
            r == 2 * self.L_vec@.len() * POINT_BYTES + 2 * SCALAR_BYTES,
    {
        (self.L_vec.len() * 2) * POINT_BYTES + 2 * SCALAR_BYTES
    }

    /// Encodes the proof: the pairs `L[i]`, `R[i]` in order, then `a`, then
    /// `b`, each in 32 bytes.
    pub fn to_bytes(&self) -> (r: Vec<u8>)
        ensures
            r@ == encoding(self@),
            r@.len() == 2 * rounds(self@) * POINT_BYTES + 2 * SCALAR_BYTES,
    {
        let k = if self.L_vec.len() <= self.R_vec.len() {
            self.L_vec.len()
        } else {
            self.R_vec.len()
        };
        let mut buf: Vec<u8> = Vec::new();
        let mut i: usize = 0;
        while i < k
            invariant
                i <= k,
                k == rounds(self@),
                buf@ == encoded_pairs(self@.l, self@.r, i as nat),
                buf@.len() == 64 * i,
            decreases k - i,
        {
            let mut l = self.L_vec[i].to_bytes();
            let mut r = self.R_vec[i].to_bytes();
            buf.append(&mut l);
            buf.append(&mut r);
            i += 1;
        }
        let mut a = self.a.to_bytes_be();
        let mut b = self.b.to_bytes_be();
        buf.append(&mut a);
        buf.append(&mut b);
        buf
    }

    /// The bytes of the encoding of the proof, one after the other.
    pub fn to_bytes_iter(&self) -> (r: std::vec::IntoIter<u8>)
        ensures
            r.remaining() == encoding(self@),
    {
        let bytes = self.to_bytes();
        proof {
            axiom_spec_into_iter(bytes);
        }
        bytes.into_iter()
    }

    /// Reads a proof from its encoding.
    ///
    /// The bytes are refused where their number is not that of two scalars
    /// and an even number of points, where they hold 32 pairs of points or
    /// more, and where a point is not the encoding of a point of the group.
    /// The scalars are reduced modulo the order of the group.
    pub fn from_bytes(slice: &[u8]) -> (r: Result<InnerProductProof, ProofError>)
        ensures
            match r {
                Ok(p) => decoding(slice@) == Some(p@) && p.wf() && p.L_vec@.len() < 32,
                Err(e) => e == ProofError::FormatError && decoding(slice@) is None,
            },
    {
        let b = slice.len();
        if b < 2 * SCALAR_BYTES {
            return Err(ProofError::FormatError);
        }
        if (b - 2 * SCALAR_BYTES) % POINT_BYTES != 0 {
            return Err(ProofError::FormatError);
        }
        let num_points = (b - 2 * SCALAR_BYTES) / POINT_BYTES;
        if num_points % 2 != 0 {
            return Err(ProofError::FormatError);
        }
        let lg_n = num_points / 2;
        if lg_n >= 32 {
            return Err(ProofError::FormatError);
        }
        assert(framed_rounds(b as nat) == Some(lg_n as nat));
        assert(b == 64 * lg_n + 64);

        let mut L_vec: Vec<Point> = Vec::with_capacity(lg_n);
        let mut R_vec: Vec<Point> = Vec::with_capacity(lg_n);
        let mut i: usize = 0;
        while i < lg_n
            invariant
                i <= lg_n < 32,
                b == slice@.len(),
                b == 64 * lg_n + 64,
                L_vec@.len() == i,
                R_vec@.len() == i,
                points_wf(L_vec@),
                points_wf(R_vec@),
                forall|j: int| 0 <= j < 2 * i ==> (#[trigger] point_decoding(chunk(slice@, j))) is Some,
                forall|j: int|
                    0 <= j < i ==> point_decoding(chunk(slice@, 2 * j)) == Some(
                        (#[trigger] L_vec@[j])@,
                    ),
                forall|j: int|
                    0 <= j < i ==> point_decoding(chunk(slice@, 2 * j + 1)) == Some(
                        (#[trigger] R_vec@[j])@,
                    ),
            decreases lg_n - i,
        {
            let pos = 2 * i * POINT_BYTES;
            let l_bytes = slice_subrange(slice, pos, pos + POINT_BYTES);
            let r_bytes = slice_subrange(slice, pos + POINT_BYTES, pos + 2 * POINT_BYTES);
            assert(l_bytes@ == chunk(slice@, 2 * i));
            assert(r_bytes@ == chunk(slice@, 2 * i + 1));
            let l_point = match Point::from_bytes(l_bytes) {
                Some(p) => p,
                None => {
                    assert(!points_decode(slice@, 2 * lg_n as nat));
                    return Err(ProofError::FormatError);
                },
            };
            let r_point = match Point::from_bytes(r_bytes) {
                Some(p) => p,
                None => {
                    assert(!points_decode(slice@, 2 * lg_n as nat));
                    return Err(ProofError::FormatError);
                },
            };
            L_vec.push(l_point);
            R_vec.push(r_point);
            i += 1;
            assert forall|j: int| 0 <= j < 2 * i implies (#[trigger] point_decoding(
                chunk(slice@, j),
            )) is Some by {
                if j == 2 * i - 2 {
                    assert(point_decoding(l_bytes@) is Some);
                } else if j == 2 * i - 1 {
                    assert(point_decoding(r_bytes@) is Some);
                }
            }
        }

        let pos = 2 * lg_n * POINT_BYTES;
        let a_bytes = slice_subrange(slice, pos, pos + SCALAR_BYTES);
        let b_bytes = slice_subrange(slice, pos + SCALAR_BYTES, b);
        assert(a_bytes@ == chunk(slice@, 2 * lg_n));
        assert(b_bytes@ == chunk(slice@, 2 * lg_n + 1));
        let a = Scalar::from_be_bytes_mod_order(a_bytes);
        let b = Scalar::from_be_bytes_mod_order(b_bytes);

        let proof = InnerProductProof { L_vec, R_vec, a, b };
        proof {
            let d = decoding(slice@).unwrap();
            assert(points_decode(slice@, 2 * lg_n as nat));
            assert(d.l =~= proof@.l);
            assert(d.r =~= proof@.r);
        }
        Ok(proof)
    }

    /// The entries at index `i` of the folded vectors: of the new `a`, `b`,
    /// `G` and `H`.
    pub fn fold_entry(
        u: Scalar,
        u_inv: Scalar,
        a_L: &[Scalar],
        a_R: &[Scalar],
        b_L: &[Scalar],
        b_R: &[Scalar],
        G_L: &[Point],
        G_R: &[Point],
        H_L: &[Point],
        H_R: &[Point],
        i: usize,
    ) -> (r: (Scalar, Scalar, Point, Point))
        requires
            fold_inputs_fit(a_L@, a_R@, b_L@, b_R@, G_L@, G_R@, H_L@, H_R@),
            i < a_L@.len(),
        ensures
            is_fold_entry(r, u, u_inv, a_L@, a_R@, b_L@, b_R@, G_L@, G_R@, H_L@, H_R@, i as int),
    {
        let a = field_sum(&field_product(&a_L[i], &u), &field_product(&u_inv, &a_R[i]));
        let b = field_sum(&field_product(&b_L[i], &u_inv), &field_product(&u, &b_R[i]));
        let g_scalars = [u_inv, u];
        let g_points = [G_L[i], G_R[i]];
        let h_scalars = [u, u_inv];
        let h_points = [H_L[i], H_R[i]];
        proof {
            assert(scalar_values(g_scalars@) =~= seq![u_inv@, u@]);
            assert(scalar_values(h_scalars@) =~= seq![u@, u_inv@]);
            assert(point_reprs(g_points@) =~= seq![G_L@[i as int]@, G_R@[i as int]@]);
            assert(point_reprs(h_points@) =~= seq![H_L@[i as int]@, H_R@[i as int]@]);
        }
        let g = msm(g_scalars.as_slice(), g_points.as_slice());
        let h = msm(h_scalars.as_slice(), h_points.as_slice());
        (a, b, g, h)
    }

    /// Folds the halves of the witness and of the bases into vectors of half
    /// the length, with the challenge `u` and its inverse.
    ///
    /// Returns the new `a`, `b`, `G` and `H`.
    pub fn fold_witness(
        u: Scalar,
        u_inv: Scalar,
        a_L: &[Scalar],
        a_R: &[Scalar],
        b_L: &[Scalar],
        b_R: &[Scalar],
        G_L: &[Point],
        G_R: &[Point],
        H_L: &[Point],
        H_R: &[Point],
    ) -> (r: (Vec<Scalar>, Vec<Scalar>, Vec<Point>, Vec<Point>))
        requires
            fold_inputs_fit(a_L@, a_R@, b_L@, b_R@, G_L@, G_R@, H_L@, H_R@),
        ensures
            scalar_values(r.0@) == folded_a(u@, u_inv@, scalar_values(a_L@), scalar_values(a_R@)),
            scalar_values(r.1@) == folded_b(u@, u_inv@, scalar_values(b_L@), scalar_values(b_R@)),
            point_reprs(r.2@) == folded_g(u@, u_inv@, point_reprs(G_L@), point_reprs(G_R@)),
            point_reprs(r.3@) == folded_h(u@, u_inv@, point_reprs(H_L@), point_reprs(H_R@)),
            r.0@.len() == a_L@.len(),
            r.1@.len() == a_L@.len(),
            r.2@.len() == a_L@.len(),
            r.3@.len() == a_L@.len(),
            scalars_wf(r.0@),
            scalars_wf(r.1@),
            points_wf(r.2@),
            points_wf(r.3@),
    {
        let n = a_L.len();
        let mut a_res: Vec<Scalar> = Vec::with_capacity(n);
        let mut b_res: Vec<Scalar> = Vec::with_capacity(n);
        let mut G_res: Vec<Point> = Vec::with_capacity(n);
        let mut H_res: Vec<Point> = Vec::with_capacity(n);

        // Short vectors are folded one entry after the other; the work of
        // handing entries out to threads would cost more than it saves.
        if n < PARALLELISM_THRESHOLD {
            let mut i: usize = 0;
            while i < n
                invariant
                    i <= n,
                    n == a_L@.len(),
                    fold_inputs_fit(a_L@, a_R@, b_L@, b_R@, G_L@, G_R@, H_L@, H_R@),
                    a_res@.len() == i,
                    b_res@.len() == i,
                    G_res@.len() == i,
                    H_res@.len() == i,
                    forall|j: int|
                        0 <= j < i ==> is_fold_entry(
                            (
                                #[trigger] a_res@[j],
                                b_res@[j],
                                G_res@[j],
                                H_res@[j],
                            ),
                            u,
                            u_inv,
                            a_L@,
                            a_R@,
                            b_L@,
                            b_R@,
                            G_L@,
                            G_R@,
                            H_L@,
                            H_R@,
                            j,
                        ),
                decreases n - i,
            {
                let e = Self::fold_entry(u, u_inv, a_L, a_R, b_L, b_R, G_L, G_R, H_L, H_R, i);
                a_res.push(e.0);
                b_res.push(e.1);
                G_res.push(e.2);
                H_res.push(e.3);
                i += 1;
            }
        } else {
            let res = fold_entries_in_parallel(u, u_inv, a_L, a_R, b_L, b_R, G_L, G_R, H_L, H_R);
            let mut i: usize = 0;
            while i < n
                invariant
                    i <= n,
                    n == a_L@.len(),
                    res@.len() == n,
                    forall|j: int|
                        0 <= j < n ==> is_fold_entry(
                            #[trigger] res@[j],
                            u,
                            u_inv,
                            a_L@,
                            a_R@,
                            b_L@,
                            b_R@,
                            G_L@,
                            G_R@,
                            H_L@,
                            H_R@,
                            j,
                        ),
                    a_res@.len() == i,
                    b_res@.len() == i,
                    G_res@.len() == i,
                    H_res@.len() == i,
                    forall|j: int|
                        0 <= j < i ==> is_fold_entry(
                            (
                                #[trigger] a_res@[j],
                                b_res@[j],
                                G_res@[j],
                                H_res@[j],
                            ),
                            u,
                            u_inv,
                            a_L@,
                            a_R@,
                            b_L@,
                            b_R@,
                            G_L@,
                            G_R@,
                            H_L@,
                            H_R@,
                            j,
                        ),
                decreases n - i,
            {
                let e = res[i];
                assert(is_fold_entry(
                    res@[i as int],
                    u,
                    u_inv,
                    a_L@,
                    a_R@,
                    b_L@,
                    b_R@,
                    G_L@,
                    G_R@,
                    H_L@,
                    H_R@,
                    i as int,
                ));
                a_res.push(e.0);
                b_res.push(e.1);
                G_res.push(e.2);
                H_res.push(e.3);
                i += 1;
            }
        }
        proof {
            let fa = folded_a(u@, u_inv@, scalar_values(a_L@), scalar_values(a_R@));
            let fb = folded_b(u@, u_inv@, scalar_values(b_L@), scalar_values(b_R@));
            let fg = folded_g(u@, u_inv@, point_reprs(G_L@), point_reprs(G_R@));
            let fh = folded_h(u@, u_inv@, point_reprs(H_L@), point_reprs(H_R@));
            assert forall|j: int| 0 <= j < n implies (#[trigger] a_res@[j])@ == fa[j] && a_res@[j].wf() by {
                assert(is_fold_entry(
                    (a_res@[j], b_res@[j], G_res@[j], H_res@[j]),
                    u,
                    u_inv,
                    a_L@,
                    a_R@,
                    b_L@,
                    b_R@,
                    G_L@,
                    G_R@,
                    H_L@,
                    H_R@,
                    j,
                ));
            }
            assert forall|j: int| 0 <= j < n implies (#[trigger] b_res@[j])@ == fb[j] && b_res@[j].wf() by {
                assert(is_fold_entry(
                    (a_res@[j], b_res@[j], G_res@[j], H_res@[j]),
                    u,
                    u_inv,
                    a_L@,
                    a_R@,
                    b_L@,
                    b_R@,
                    G_L@,
                    G_R@,
                    H_L@,
                    H_R@,
                    j,
                ));
            }
            assert forall|j: int| 0 <= j < n implies (#[trigger] G_res@[j])@ == fg[j] && G_res@[j].wf() by {
                assert(is_fold_entry(
                    (a_res@[j], b_res@[j], G_res@[j], H_res@[j]),
                    u,
                    u_inv,
                    a_L@,
                    a_R@,
                    b_L@,
                    b_R@,
                    G_L@,
                    G_R@,
                    H_L@,
                    H_R@,
                    j,
                ));
            }
            assert forall|j: int| 0 <= j < n implies (#[trigger] H_res@[j])@ == fh[j] && H_res@[j].wf() by {
                assert(is_fold_entry(
                    (a_res@[j], b_res@[j], G_res@[j], H_res@[j]),
                    u,
                    u_inv,
                    a_L@,
                    a_R@,
                    b_L@,
                    b_R@,
                    G_L@,
                    G_R@,
                    H_L@,
                    H_R@,
                    j,
                ));
            }
            assert(scalar_values(a_res@) =~= fa);
            assert(scalar_values(b_res@) =~= fb);
            assert(point_reprs(G_res@) =~= fg);
            assert(point_reprs(H_res@) =~= fh);
        }
        (a_res, b_res, G_res, H_res)
    }
}

} // verus!
