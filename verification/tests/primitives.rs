use inner_product_proof::scalar::Scalar;
use inner_product_proof::point::Point;
use inner_product_proof::transcript::{
    append_point, challenge_scalar, innerproduct_domain_sep, u64_be_bytes,
    validate_and_append_point,
};
use inner_product_proof::{inner_product, ProofError};
use merlin::Transcript;
use mpc_stark::algebra::scalar::Scalar as StarkScalar;
use mpc_stark::algebra::stark_curve::StarkPoint;
use mpc_stark::random_point;
use rand::thread_rng;

fn scalar(s: &StarkScalar) -> Scalar {
    Scalar::from_be_bytes_mod_order(&s.to_bytes_be())
}

fn point(p: &StarkPoint) -> Point {
    Point::from_bytes(&p.to_bytes()).unwrap()
}

#[test]
fn scalar_from_u64_is_big_endian() {
    let mut want = vec![0u8; 32];
    want[30] = 0x01;
    want[31] = 0x02;
    assert_eq!(Scalar::from_u64(0x0102).to_bytes_be(), want);
    assert_eq!(Scalar::zero().to_bytes_be(), vec![0u8; 32]);
    assert_eq!(Scalar::one(), Scalar::from_u64(1));
}

#[test]
fn scalar_from_bytes_reduces_modulo_the_order() {
    // The order of the group, most significant byte first.
    let order: [u8; 32] = [
        0x08, 0x00, 0x00, 0x00, 0x00, 0x00, 0x00, 0x10, 0xff, 0xff, 0xff, 0xff, 0xff, 0xff, 0xff,
        0xff, 0xb7, 0x81, 0x12, 0x6d, 0xca, 0xe7, 0xb2, 0x32, 0x1e, 0x66, 0xa2, 0x41, 0xad, 0xc6,
        0x4d, 0x2f,
    ];
    assert_eq!(Scalar::from_be_bytes_mod_order(&order), Scalar::zero());
    let mut next = order;
    next[31] = 0x30;
    assert_eq!(Scalar::from_be_bytes_mod_order(&next), Scalar::one());
    let mut below = order;
    below[31] = 0x2e;
    assert_eq!(Scalar::from_be_bytes_mod_order(&below).to_bytes_be(), below.to_vec());
    assert_eq!(Scalar::from_be_bytes_mod_order(&[]), Scalar::zero());
    assert_eq!(Scalar::from_be_bytes_mod_order(&[0x01, 0x00]), Scalar::from_u64(256));
}

#[test]
fn scalar_equals_compares_values() {
    let x = Scalar::from_u64(7);
    assert!(x.equals(&Scalar::from_u64(7)));
    assert!(!x.equals(&Scalar::from_u64(8)));
    assert!(Scalar::zero().is_zero());
    assert!(!x.is_zero());
}

#[test]
fn scalar_inverse_times_scalar_is_one() {
    let mut rng = thread_rng();
    let x = StarkScalar::random(&mut rng);
    let inv = scalar(&x).inverse();
    assert_eq!(inv, scalar(&x.inverse()));
    assert_eq!(inner_product(&[scalar(&x)], &[inv]), Scalar::one());
    assert_eq!(Scalar::from_u64(2).inverse().to_bytes_be(), StarkScalar::from(2u64).inverse().to_bytes_be());
}

#[test]
fn scalar_inverse_of_zero_is_zero() {
    assert_eq!(Scalar::zero().inverse(), Scalar::zero());
}

#[test]
fn batch_inverse_inverts_each_and_keeps_zero() {
    let mut rng = thread_rng();
    let x = StarkScalar::random(&mut rng);
    let y = StarkScalar::random(&mut rng);
    let mut v = vec![scalar(&x), Scalar::zero(), scalar(&y)];
    Scalar::batch_inverse(&mut v);
    assert_eq!(v, vec![scalar(&x.inverse()), Scalar::zero(), scalar(&y.inverse())]);
    let mut empty: Vec<Scalar> = Vec::new();
    Scalar::batch_inverse(&mut empty);
    assert!(empty.is_empty());
}

#[test]
fn point_round_trips_through_its_bytes() {
    let p = random_point();
    let q = point(&p);
    assert_eq!(q.to_bytes(), p.to_bytes());
    assert_eq!(Point::from_bytes(&q.to_bytes()), Some(q));
    assert!(q.equals(&point(&p)));
    assert!(!q.equals(&point(&(p + p))));
}

#[test]
fn point_from_bytes_refuses_what_is_no_point() {
    assert_eq!(Point::from_bytes(&[0xffu8; 32]), None);
    assert_eq!(Point::from_bytes(&[0u8; 31]), None);
    assert_eq!(Point::from_bytes(&[]), None);
}

#[test]
fn point_identity_is_recognised() {
    let id = point(&StarkPoint::identity());
    assert!(id.is_identity());
    assert!(!point(&random_point()).is_identity());
    // An encoding of the identity with stray bits decodes to the one identity.
    let mut stray = StarkPoint::identity().to_bytes();
    stray[0] = 1;
    if let Some(p) = Point::from_bytes(&stray) {
        assert_eq!(p, id);
        assert!(p.is_identity());
    }
}

#[test]
fn u64_be_bytes_are_most_significant_first() {
    assert_eq!(u64_be_bytes(0), vec![0u8; 8]);
    assert_eq!(u64_be_bytes(0x0102030405060708), vec![1u8, 2, 3, 4, 5, 6, 7, 8]);
    assert_eq!(u64_be_bytes(u64::MAX), vec![0xffu8; 8]);
    assert_eq!(u64_be_bytes(64), 64u64.to_be_bytes().to_vec());
}

#[test]
fn domain_separator_absorbs_the_label_and_the_length() {
    let mut ours = Transcript::new(b"test");
    innerproduct_domain_sep(&mut ours, 4);
    let mut theirs = Transcript::new(b"test");
    theirs.append_message(b"dom-sep", b"ipp v1");
    theirs.append_message(b"n", &4u64.to_be_bytes());
    let mut a = [0u8; 32];
    let mut b = [0u8; 32];
    ours.challenge_bytes(b"x", &mut a);
    theirs.challenge_bytes(b"x", &mut b);
    assert_eq!(a, b);
}

#[test]
fn challenge_scalar_reduces_sixty_four_bytes() {
    let mut ours = Transcript::new(b"test");
    let mut theirs = Transcript::new(b"test");
    let u = challenge_scalar(&mut ours, "u");
    let mut buf = [0u8; 64];
    theirs.challenge_bytes(b"u", &mut buf);
    assert_eq!(u, scalar(&StarkScalar::from_be_bytes_mod_order(&buf)));
    // Both transcripts are in one state afterwards.
    let v = challenge_scalar(&mut ours, "u");
    theirs.challenge_bytes(b"u", &mut buf);
    assert_eq!(v, scalar(&StarkScalar::from_be_bytes_mod_order(&buf)));
    assert_ne!(u, v);
}

#[test]
fn append_point_absorbs_the_encoding() {
    let p = random_point();
    let mut ours = Transcript::new(b"test");
    append_point(&mut ours, "L", &point(&p));
    let mut theirs = Transcript::new(b"test");
    theirs.append_message(b"L", &p.to_bytes());
    assert_eq!(challenge_scalar(&mut ours, "u"), challenge_scalar(&mut theirs, "u"));
}

#[test]
fn validate_and_append_point_refuses_the_identity() {
    let mut ours = Transcript::new(b"test");
    let id = point(&StarkPoint::identity());
    assert_eq!(validate_and_append_point(&mut ours, "L", &id), Err(ProofError::VerificationError));
    // The transcript is as it was.
    let mut fresh = Transcript::new(b"test");
    assert_eq!(challenge_scalar(&mut ours, "u"), challenge_scalar(&mut fresh, "u"));

    let p = point(&random_point());
    let mut ours = Transcript::new(b"test");
    assert_eq!(validate_and_append_point(&mut ours, "L", &p), Ok(()));
    let mut theirs = Transcript::new(b"test");
    append_point(&mut theirs, "L", &p);
    assert_eq!(challenge_scalar(&mut ours, "u"), challenge_scalar(&mut theirs, "u"));
}
