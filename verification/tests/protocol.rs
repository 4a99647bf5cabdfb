use inner_product_proof::{inner_product, InnerProductProof, Point, ProofError, Scalar};
use merlin::Transcript;
use mpc_stark::algebra::scalar::Scalar as StarkScalar;
use mpc_stark::algebra::stark_curve::StarkPoint;
use mpc_stark::random_point;
use rand::thread_rng;

fn scalar(s: &StarkScalar) -> Scalar {
    Scalar::from_be_bytes_mod_order(&s.to_bytes_be())
}

fn point(p: &StarkPoint) -> Point {
    Point::from_bytes(&p.to_bytes()).unwrap()
}

fn scalars(v: &[StarkScalar]) -> Vec<Scalar> {
    v.iter().map(scalar).collect()
}

fn points(v: &[StarkPoint]) -> Vec<Point> {
    v.iter().map(point).collect()
}

/// The powers of `x`, from the power zero on.
fn powers(x: StarkScalar, n: usize) -> Vec<StarkScalar> {
    let mut out = Vec::with_capacity(n);
    let mut next = StarkScalar::from(1u64);
    for _ in 0..n {
        out.push(next);
        next = next * x;
    }
    out
}

struct Statement {
    g: Vec<StarkPoint>,
    h: Vec<StarkPoint>,
    q: StarkPoint,
    a: Vec<StarkScalar>,
    b: Vec<StarkScalar>,
    g_factors: Vec<StarkScalar>,
    h_factors: Vec<StarkScalar>,
}

impl Statement {
    fn random(n: usize) -> Statement {
        let mut rng = thread_rng();
        let g: Vec<StarkPoint> = (0..n).map(|_| random_point()).collect();
        let h: Vec<StarkPoint> = (0..n).map(|_| random_point()).collect();
        // Q would be determined upstream in the protocol, so we pick a random one.
        let q = random_point();
        // a and b are the vectors for which we want to prove c = <a,b>
        let a: Vec<_> = (0..n).map(|_| StarkScalar::random(&mut rng)).collect();
        let b: Vec<_> = (0..n).map(|_| StarkScalar::random(&mut rng)).collect();
        let g_factors = vec![StarkScalar::from(1u64); n];
        // y_inv is (the inverse of) a random challenge
        let y_inv = StarkScalar::random(&mut rng);
        let h_factors = powers(y_inv, n);
        Statement { g, h, q, a, b, g_factors, h_factors }
    }

    /// P = <a,G> + <b',H> + <a,b> Q, where b' = b \circ y^(-n).
    fn commitment(&self) -> StarkPoint {
        let c = self.a.iter().zip(self.b.iter()).fold(StarkScalar::from(0u64), |acc, (x, y)| acc + x * y);
        let b_prime: Vec<StarkScalar> =
            self.b.iter().zip(self.h_factors.iter()).map(|(bi, yi)| bi * yi).collect();
        let mut ss = self.a.clone();
        ss.extend(b_prime);
        ss.push(c);
        let mut ps = self.g.clone();
        ps.extend(self.h.iter().copied());
        ps.push(self.q);
        StarkPoint::msm(&ss, &ps)
    }

    fn prove(&self, label: &'static [u8]) -> InnerProductProof {
        let mut transcript = Transcript::new(label);
        InnerProductProof::create(
            &mut transcript,
            &point(&self.q),
            &scalars(&self.g_factors),
            &scalars(&self.h_factors),
            points(&self.g),
            points(&self.h),
            scalars(&self.a),
            scalars(&self.b),
        )
    }

    fn check(&self, proof: &InnerProductProof, label: &'static [u8], p: &StarkPoint) -> Result<(), ProofError> {
        let mut transcript = Transcript::new(label);
        proof.verify(
            self.a.len(),
            &mut transcript,
            &scalars(&self.g_factors),
            &scalars(&self.h_factors),
            &point(p),
            &point(&self.q),
            &points(&self.g),
            &points(&self.h),
        )
    }
}

fn create_proof(n: usize) -> InnerProductProof {
    Statement::random(n).prove(b"innerproducttest")
}

fn test_helper_create(n: usize) {
    let st = Statement::random(n);
    let p = st.commitment();
    let proof = st.prove(b"innerproducttest");
    assert!(st.check(&proof, b"innerproducttest", &p).is_ok());

    let proof = InnerProductProof::from_bytes(proof.to_bytes().as_slice()).unwrap();
    assert!(st.check(&proof, b"innerproducttest", &p).is_ok());
}

/// Test serializing an inner product proof to bytes and then deserializing it
#[test]
fn test_proof_to_from_bytes() {
    let proof = create_proof(2);
    let proof_bytes = proof.to_bytes();
    let reconstructed_proof = InnerProductProof::from_bytes(&proof_bytes).unwrap();

    assert_eq!(proof, reconstructed_proof);
}

#[test]
fn make_ipp_1() {
    test_helper_create(1);
}

#[test]
fn make_ipp_2() {
    test_helper_create(2);
}

#[test]
fn make_ipp_4() {
    test_helper_create(4);
}

#[test]
fn make_ipp_32() {
    test_helper_create(32);
}

#[test]
fn make_ipp_64() {
    test_helper_create(64);
}

#[test]
fn test_inner_product() {
    let a = vec![
        Scalar::from_u64(1u64),
        Scalar::from_u64(2u64),
        Scalar::from_u64(3u64),
        Scalar::from_u64(4u64),
    ];
    let b = vec![
        Scalar::from_u64(2u64),
        Scalar::from_u64(3u64),
        Scalar::from_u64(4u64),
        Scalar::from_u64(5u64),
    ];
    assert_eq!(Scalar::from_u64(40u64), inner_product(&a, &b));
}

#[test]
fn make_ipp_8_and_16() {
    test_helper_create(8);
    test_helper_create(16);
}

#[test]
fn inner_product_of_empty_vectors_is_zero() {
    assert_eq!(Scalar::from_u64(0), inner_product(&[], &[]));
}

#[test]
fn inner_product_agrees_with_the_field() {
    let mut rng = thread_rng();
    let a: Vec<StarkScalar> = (0..5).map(|_| StarkScalar::random(&mut rng)).collect();
    let b: Vec<StarkScalar> = (0..5).map(|_| StarkScalar::random(&mut rng)).collect();
    let want = a.iter().zip(b.iter()).fold(StarkScalar::from(0u64), |acc, (x, y)| acc + x * y);
    assert_eq!(scalar(&want), inner_product(&scalars(&a), &scalars(&b)));
}

#[test]
fn length_one_proof_holds_the_witness() {
    let st = Statement::random(1);
    let proof = st.prove(b"innerproducttest");
    assert!(proof.L_vec.is_empty());
    assert!(proof.R_vec.is_empty());
    assert_eq!(proof.a, scalar(&st.a[0]));
    assert_eq!(proof.b, scalar(&st.b[0]));
    assert_eq!(proof.to_bytes().len(), 64);
    assert_eq!(proof.serialized_size(), 64);
    // P = a0 * G0 + b0 * H0' + (a0 * b0) * Q, with H0' = h_factors[0] * H0
    let p = st.a[0] * st.g[0] + (st.b[0] * st.h_factors[0]) * st.h[0] + (st.a[0] * st.b[0]) * st.q;
    assert!(st.check(&proof, b"innerproducttest", &p).is_ok());
}

#[test]
fn length_two_proof_has_one_round() {
    let st = Statement::random(2);
    let proof = st.prove(b"innerproducttest");
    assert_eq!(proof.L_vec.len(), 1);
    assert_eq!(proof.R_vec.len(), 1);
    assert_eq!(proof.serialized_size(), 2 * 32 + 2 * 32);
    assert_eq!(proof.to_bytes().len(), 2 * 32 + 2 * 32);
    assert!(st.check(&proof, b"innerproducttest", &st.commitment()).is_ok());
}

#[test]
fn first_round_commitments_are_the_weighted_sums() {
    let mut st = Statement::random(2);
    let mut rng = thread_rng();
    st.g_factors = vec![StarkScalar::random(&mut rng), StarkScalar::random(&mut rng)];
    let proof = st.prove(b"innerproducttest");
    // L = (a0 * gf1) * G1 + (b1 * hf0) * H0 + (a0 * b1) * Q
    let l = (st.a[0] * st.g_factors[1]) * st.g[1]
        + (st.b[1] * st.h_factors[0]) * st.h[0]
        + (st.a[0] * st.b[1]) * st.q;
    // R = (a1 * gf0) * G0 + (b0 * hf1) * H1 + (a1 * b0) * Q
    let r = (st.a[1] * st.g_factors[0]) * st.g[0]
        + (st.b[0] * st.h_factors[1]) * st.h[1]
        + (st.a[1] * st.b[0]) * st.q;
    assert_eq!(proof.L_vec[0], point(&l));
    assert_eq!(proof.R_vec[0], point(&r));
}

#[test]
fn serialized_size_is_two_points_a_round_and_two_scalars() {
    for (n, k) in [(1usize, 0usize), (2, 1), (4, 2), (8, 3)] {
        let proof = create_proof(n);
        assert_eq!(proof.L_vec.len(), k);
        assert_eq!(proof.serialized_size(), 2 * k * 32 + 2 * 32);
        assert_eq!(proof.to_bytes().len(), proof.serialized_size());
    }
}

#[test]
fn to_bytes_iter_gives_the_encoding() {
    let proof = create_proof(4);
    let bytes: Vec<u8> = proof.to_bytes_iter().collect();
    assert_eq!(bytes, proof.to_bytes());
}

#[test]
fn encoding_is_the_pairs_then_the_scalars() {
    let proof = create_proof(4);
    let bytes = proof.to_bytes();
    assert_eq!(&bytes[0..32], proof.L_vec[0].to_bytes().as_slice());
    assert_eq!(&bytes[32..64], proof.R_vec[0].to_bytes().as_slice());
    assert_eq!(&bytes[64..96], proof.L_vec[1].to_bytes().as_slice());
    assert_eq!(&bytes[96..128], proof.R_vec[1].to_bytes().as_slice());
    assert_eq!(&bytes[128..160], proof.a.to_bytes_be().as_slice());
    assert_eq!(&bytes[160..192], proof.b.to_bytes_be().as_slice());
}

#[test]
fn from_bytes_refuses_thirty_two_rounds() {
    let bytes = vec![0u8; 2 * 32 * 32 + 64];
    assert_eq!(InnerProductProof::from_bytes(&bytes), Err(ProofError::FormatError));
}

#[test]
fn from_bytes_refuses_a_truncated_proof() {
    for n in [1usize, 4] {
        let mut bytes = create_proof(n).to_bytes();
        bytes.pop();
        assert_eq!(InnerProductProof::from_bytes(&bytes), Err(ProofError::FormatError));
    }
}

#[test]
fn from_bytes_refuses_an_odd_number_of_points() {
    let mut bytes = create_proof(2).to_bytes();
    let extra = bytes[0..32].to_vec();
    bytes.splice(0..0, extra);
    assert_eq!(bytes.len(), 3 * 32 + 64);
    assert_eq!(InnerProductProof::from_bytes(&bytes), Err(ProofError::FormatError));
}

#[test]
fn from_bytes_refuses_short_input() {
    assert_eq!(InnerProductProof::from_bytes(&[]), Err(ProofError::FormatError));
    assert_eq!(InnerProductProof::from_bytes(&[0u8; 63]), Err(ProofError::FormatError));
}

#[test]
fn from_bytes_refuses_bytes_that_are_no_point() {
    let mut bytes = create_proof(2).to_bytes();
    for b in bytes[0..32].iter_mut() {
        *b = 0xff;
    }
    assert_eq!(InnerProductProof::from_bytes(&bytes), Err(ProofError::FormatError));
}

#[test]
fn from_bytes_reduces_the_scalars() {
    let mut bytes = vec![0xffu8; 64];
    let proof = InnerProductProof::from_bytes(&bytes).unwrap();
    let want = StarkScalar::from_be_bytes_mod_order(&[0xffu8; 32]);
    assert_eq!(proof.a, scalar(&want));
    assert_eq!(proof.b, scalar(&want));
    assert_ne!(proof.to_bytes(), bytes);
    bytes[63] = 0xfe;
    let other = InnerProductProof::from_bytes(&bytes).unwrap();
    assert_eq!(other.a, proof.a);
    assert_ne!(other.b, proof.b);
}

#[test]
fn create_is_deterministic() {
    let st = Statement::random(8);
    let first = st.prove(b"innerproducttest");
    let second = st.prove(b"innerproducttest");
    assert_eq!(first.to_bytes(), second.to_bytes());
    let other = st.prove(b"anothertranscript");
    assert_ne!(first.to_bytes(), other.to_bytes());
}

#[test]
fn tampered_scalar_fails_verification() {
    let st = Statement::random(4);
    let p = st.commitment();
    let proof = st.prove(b"innerproducttest");
    let mut bytes = proof.to_bytes();
    let last = bytes.len() - 1;
    bytes[last] ^= 1;
    let tampered = InnerProductProof::from_bytes(&bytes).unwrap();
    assert_eq!(st.check(&tampered, b"innerproducttest", &p), Err(ProofError::VerificationError));
}

#[test]
fn tampered_bytes_fail_verification() {
    let st = Statement::random(2);
    let p = st.commitment();
    let bytes = st.prove(b"innerproducttest").to_bytes();
    for at in [0usize, 40, 70, 100] {
        let mut changed = bytes.clone();
        changed[at] ^= 1;
        if let Ok(tampered) = InnerProductProof::from_bytes(&changed) {
            assert_eq!(
                st.check(&tampered, b"innerproducttest", &p),
                Err(ProofError::VerificationError)
            );
        }
    }
}

#[test]
fn verify_refuses_another_transcript_and_another_commitment() {
    let st = Statement::random(4);
    let p = st.commitment();
    let proof = st.prove(b"innerproducttest");
    assert_eq!(st.check(&proof, b"anothertranscript", &p), Err(ProofError::VerificationError));
    let other = p + st.q;
    assert_eq!(st.check(&proof, b"innerproducttest", &other), Err(ProofError::VerificationError));
}

#[test]
fn verification_scalars_refuse_a_wrong_length() {
    let proof = create_proof(4);
    for n in [0usize, 1, 2, 3, 5, 8] {
        let mut transcript = Transcript::new(b"innerproducttest");
        assert_eq!(
            proof.verification_scalars(n, &mut transcript),
            Err(ProofError::VerificationError)
        );
    }
}

#[test]
fn verification_scalars_refuse_thirty_two_rounds() {
    let one = create_proof(2);
    let proof = InnerProductProof {
        L_vec: vec![one.L_vec[0]; 32],
        R_vec: vec![one.R_vec[0]; 32],
        a: one.a,
        b: one.b,
    };
    let mut transcript = Transcript::new(b"innerproducttest");
    assert_eq!(
        proof.verification_scalars(1 << 32, &mut transcript),
        Err(ProofError::VerificationError)
    );
}

#[test]
fn verification_scalars_refuse_the_identity() {
    let one = create_proof(2);
    let identity = point(&StarkPoint::identity());
    let proof = InnerProductProof { L_vec: vec![identity], R_vec: one.R_vec.clone(), a: one.a, b: one.b };
    let mut transcript = Transcript::new(b"innerproducttest");
    assert_eq!(
        proof.verification_scalars(2, &mut transcript),
        Err(ProofError::VerificationError)
    );
    let proof = InnerProductProof { L_vec: one.L_vec.clone(), R_vec: vec![identity], a: one.a, b: one.b };
    let mut transcript = Transcript::new(b"innerproducttest");
    assert_eq!(
        proof.verification_scalars(2, &mut transcript),
        Err(ProofError::VerificationError)
    );
}

#[test]
fn s_vector_entries_are_inverse_to_their_mirror() {
    let one = Scalar::from_u64(1);
    for n in [4usize, 16] {
        let proof = create_proof(n);
        let mut transcript = Transcript::new(b"innerproducttest");
        let (_, _, s) = proof.verification_scalars(n, &mut transcript).unwrap();
        assert_eq!(s.len(), n);
        for i in 0..n {
            assert_eq!(inner_product(&[s[i]], &[s[n - 1 - i]]), one);
        }
    }
}

#[test]
fn verification_scalars_are_squares_and_products_of_the_challenges() {
    let n = 8;
    let proof = create_proof(n);
    let mut transcript = Transcript::new(b"innerproducttest");
    let (u_sq, u_inv_sq, s) = proof.verification_scalars(n, &mut transcript).unwrap();
    assert_eq!(u_sq.len(), 3);
    assert_eq!(u_inv_sq.len(), 3);
    let one = Scalar::from_u64(1);
    for j in 0..3 {
        assert_eq!(inner_product(&[u_sq[j]], &[u_inv_sq[j]]), one);
    }
    // s[i] is s[0] times the square of the challenge of each bit set in i
    for i in 1..n {
        let mut want = s[0];
        for bit in 0..3 {
            if (i >> bit) & 1 == 1 {
                want = inner_product(&[want], &[u_sq[2 - bit]]);
            }
        }
        assert_eq!(s[i], want);
    }
    // s[0] squared is the product of the squared inverses
    let mut all = one;
    for j in 0..3 {
        all = inner_product(&[all], &[u_inv_sq[j]]);
    }
    assert_eq!(inner_product(&[s[0]], &[s[0]]), all);
}

#[test]
fn fold_witness_combines_the_halves() {
    let mut rng = thread_rng();
    let u = StarkScalar::random(&mut rng);
    let u_inv = u.inverse();
    let a: Vec<StarkScalar> = (0..2).map(|_| StarkScalar::random(&mut rng)).collect();
    let b: Vec<StarkScalar> = (0..2).map(|_| StarkScalar::random(&mut rng)).collect();
    let g: Vec<StarkPoint> = (0..2).map(|_| random_point()).collect();
    let h: Vec<StarkPoint> = (0..2).map(|_| random_point()).collect();
    let (a2, b2, g2, h2) = InnerProductProof::fold_witness(
        scalar(&u),
        scalar(&u_inv),
        &scalars(&a[..1]),
        &scalars(&a[1..]),
        &scalars(&b[..1]),
        &scalars(&b[1..]),
        &points(&g[..1]),
        &points(&g[1..]),
        &points(&h[..1]),
        &points(&h[1..]),
    );
    assert_eq!(a2, vec![scalar(&(u * a[0] + u_inv * a[1]))]);
    assert_eq!(b2, vec![scalar(&(u_inv * b[0] + u * b[1]))]);
    assert_eq!(g2, vec![point(&(u_inv * g[0] + u * g[1]))]);
    assert_eq!(h2, vec![point(&(u * h[0] + u_inv * h[1]))]);
}

#[test]
fn fold_witness_of_long_halves_combines_each_index() {
    let mut rng = thread_rng();
    let m = 12;
    let u = StarkScalar::random(&mut rng);
    let u_inv = u.inverse();
    let a: Vec<StarkScalar> = (0..2 * m).map(|_| StarkScalar::random(&mut rng)).collect();
    let b: Vec<StarkScalar> = (0..2 * m).map(|_| StarkScalar::random(&mut rng)).collect();
    let g: Vec<StarkPoint> = (0..2 * m).map(|_| random_point()).collect();
    let h: Vec<StarkPoint> = (0..2 * m).map(|_| random_point()).collect();
    let (a2, b2, g2, h2) = InnerProductProof::fold_witness(
        scalar(&u),
        scalar(&u_inv),
        &scalars(&a[..m]),
        &scalars(&a[m..]),
        &scalars(&b[..m]),
        &scalars(&b[m..]),
        &points(&g[..m]),
        &points(&g[m..]),
        &points(&h[..m]),
        &points(&h[m..]),
    );
    assert_eq!(a2.len(), m);
    assert_eq!(b2.len(), m);
    assert_eq!(g2.len(), m);
    assert_eq!(h2.len(), m);
    for i in 0..m {
        assert_eq!(a2[i], scalar(&(u * a[i] + u_inv * a[m + i])));
        assert_eq!(b2[i], scalar(&(u_inv * b[i] + u * b[m + i])));
        assert_eq!(g2[i], point(&(u_inv * g[i] + u * g[m + i])));
        assert_eq!(h2[i], point(&(u * h[i] + u_inv * h[m + i])));
    }
}

#[test]
fn fold_entry_is_the_entry_of_fold_witness() {
    let mut rng = thread_rng();
    let u = scalar(&StarkScalar::random(&mut rng));
    let u_inv = u.inverse();
    let a: Vec<Scalar> = (0..4).map(|_| scalar(&StarkScalar::random(&mut rng))).collect();
    let b: Vec<Scalar> = (0..4).map(|_| scalar(&StarkScalar::random(&mut rng))).collect();
    let g: Vec<Point> = (0..4).map(|_| point(&random_point())).collect();
    let h: Vec<Point> = (0..4).map(|_| point(&random_point())).collect();
    let all = InnerProductProof::fold_witness(
        u, u_inv, &a[..2], &a[2..], &b[..2], &b[2..], &g[..2], &g[2..], &h[..2], &h[2..],
    );
    for i in 0..2 {
        let e = InnerProductProof::fold_entry(
            u, u_inv, &a[..2], &a[2..], &b[..2], &b[2..], &g[..2], &g[2..], &h[..2], &h[2..], i,
        );
        assert_eq!(e, (all.0[i], all.1[i], all.2[i], all.3[i]));
    }
}
