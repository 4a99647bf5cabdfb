//! Points of the Stark curve's group.
//!
//! A [`Point`] holds the canonical 32-byte compressed encoding of a group
//! element. The group arithmetic is done by `mpc_stark`; its results are
//! named here as functions of the encodings they are computed from.

use crate::scalar::{scalar_values, Scalar};
use mpc_stark::algebra::scalar::Scalar as StarkScalar;
use mpc_stark::algebra::stark_curve::StarkPoint;
use vstd::prelude::*;

verus! {

/// Number of bytes in the encoding of a point.
pub const POINT_BYTES: usize = 32;

/// The canonical encoding of the point that `StarkPoint::from_bytes` reads
/// from `bytes`, and `None` where it rejects them.
pub uninterp spec fn point_decoding(bytes: Seq<u8>) -> Option<Seq<u8>>;

/// The encoding of the sum of the points, each multiplied by the scalar at
/// its index, as `StarkPoint::msm_iter` computes it.
pub uninterp spec fn msm_value(scalars: Seq<nat>, points: Seq<Seq<u8>>) -> Seq<u8>;

/// The encoding of the point multiplied by the scalar, as the `*` of
/// `StarkPoint` computes it.
pub uninterp spec fn scaled_value(scalar: nat, point: Seq<u8>) -> Seq<u8>;

/// Whether `StarkPoint::is_identity` holds of the point with this encoding.
pub uninterp spec fn is_identity_encoding(point: Seq<u8>) -> bool;

/// An element of the group.
#[derive(Clone, Copy, Debug, PartialEq, Eq)]
pub struct Point {
    bytes: [u8; 32],
}

impl View for Point {
    type V = Seq<u8>;

    /// The encoding of the point.
    closed spec fn view(&self) -> Seq<u8> {
        self.bytes@
    }
}

/// The encodings of a sequence of points.
pub open spec fn point_reprs(s: Seq<Point>) -> Seq<Seq<u8>> {
    Seq::new(s.len(), |i: int| s[i]@)
}

/// Every point of the sequence is well formed.
pub open spec fn points_wf(s: Seq<Point>) -> bool {
    forall|i: int| 0 <= i < s.len() ==> (#[trigger] s[i]).wf()
}

/// An encoding is canonical: it decodes, and to itself.
pub open spec fn is_canonical_point(bytes: Seq<u8>) -> bool {
    bytes.len() == 32 && point_decoding(bytes) == Some(bytes)
}

/// `StarkPoint::from_bytes`, which accepts the compressed encoding of a point
/// of the group and rejects everything else. The point it returns is held by
/// the bytes that `StarkPoint::to_bytes` gives for it, which decode to the
/// same point again.
#[verifier::external_body]
fn decode(bytes: &[u8]) -> (r: Option<Point>)
    ensures
        match r {
            Some(p) => point_decoding(bytes@) == Some(p@) && p.wf(),
            None => point_decoding(bytes@) is None,
        },
{
    match StarkPoint::from_bytes(bytes) {
        Ok(p) => Some(Point { bytes: p.to_bytes().try_into().unwrap() }),
        Err(_) => None,
    }
}

/// `StarkPoint::msm_iter` on the scalars and points in order.
#[verifier::external_body]
pub(crate) fn msm(scalars: &[Scalar], points: &[Point]) -> (r: Point)
    requires
        points_wf(points@),
    ensures
        r.wf(),
        r@ == msm_value(scalar_values(scalars@), point_reprs(points@)),
{
    let r = StarkPoint::msm_iter(
        scalars.iter().map(|s| StarkScalar::from_be_bytes_mod_order(&s.bytes)),
        points.iter().map(|p| StarkPoint::from_bytes(&p.bytes).unwrap()),
    );
    Point { bytes: r.to_bytes().try_into().unwrap() }
}

/// The `*` of a `StarkScalar` and a `StarkPoint`.
#[verifier::external_body]
pub(crate) fn scale(scalar: &Scalar, point: &Point) -> (r: Point)
    requires
        point.wf(),
    ensures
        r.wf(),
        r@ == scaled_value(scalar@, point@),
{
    let s = StarkScalar::from_be_bytes_mod_order(&scalar.bytes);
    let p = StarkPoint::from_bytes(&point.bytes).unwrap();
    Point { bytes: (s * p).to_bytes().try_into().unwrap() }
}

/// `StarkPoint::is_identity`.
#[verifier::external_body]
fn identity_test(point: &Point) -> (r: bool)
    requires
        point.wf(),
    ensures
        r == is_identity_encoding(point@),
{
    StarkPoint::from_bytes(&point.bytes).unwrap().is_identity()
}

impl Point {
    /// The bytes are the canonical encoding of a point of the group.
    pub open spec fn wf(self) -> bool {
        is_canonical_point(self@)
    }

    /// The encoding of a point has 32 bytes.
    pub proof fn lemma_len(self)
        ensures
            self@.len() == 32,
    {
    }

    /// Points with one encoding are one point.
    pub proof fn lemma_repr_injective(self, other: Point)
        requires
            self@ == other@,
        ensures
            self == other,
    {
        assert(self.bytes =~= other.bytes);
    }

    /// Reads the compressed encoding of a point. `None` where the bytes are
    /// not the encoding of a point of the group.
    pub fn from_bytes(bytes: &[u8]) -> (r: Option<Point>)
        ensures
            match r {
                Some(p) => point_decoding(bytes@) == Some(p@) && p.wf(),
                None => point_decoding(bytes@) is None,
            },
    {
        decode(bytes)
    }

    /// The 32-byte compressed encoding of the point.
    pub fn to_bytes(&self) -> (r: Vec<u8>)
        ensures
            r@ == self@,
            r@.len() == 32,
    {
        let mut out: Vec<u8> = Vec::with_capacity(POINT_BYTES);
        let mut i: usize = 0;
        while i < POINT_BYTES
            invariant
                i <= 32,
                out@ == self.bytes@.subrange(0, i as int),
            decreases 32 - i,
        {
            out.push(self.bytes[i]);
            i += 1;
            assert(out@ =~= self.bytes@.subrange(0, i as int));
        }
        assert(out@ =~= self.bytes@);
        out
    }

    /// Whether two points are the same group element.
    pub fn equals(&self, other: &Point) -> (r: bool)
        ensures
            r == (self@ == other@),
    {
        let mut i: usize = 0;
        while i < POINT_BYTES
            invariant
                i <= 32,
                forall|j: int| 0 <= j < i ==> self.bytes@[j] == other.bytes@[j],
            decreases 32 - i,
        {
            if self.bytes[i] != other.bytes[i] {
                return false;
            }
            i += 1;
        }
        assert(self.bytes@ =~= other.bytes@);
        true
    }

    /// Whether the point is the identity of the group.
    pub fn is_identity(&self) -> (r: bool)
        requires
            self.wf(),
        ensures
            r == is_identity_encoding(self@),
    {
        identity_test(self)
    }
}

} // verus!
