//! Executable helpers on vectors of scalars and points.

use crate::algebra::{hadamard, scaled_points};
use crate::point::{point_reprs, points_wf, scale, Point};
use crate::field::fneg;
use crate::scalar::{field_negation, field_product, scalar_values, scalars_wf, Scalar};
use crate::verification::negations;
use vstd::prelude::*;
use vstd::slice::slice_subrange;

verus! {

pub proof fn lemma_scalar_values_subrange(s: Seq<Scalar>, i: int, j: int)
    requires
        0 <= i <= j <= s.len(),
    ensures
        scalar_values(s.subrange(i, j)) == scalar_values(s).subrange(i, j),
{
    assert(scalar_values(s.subrange(i, j)) =~= scalar_values(s).subrange(i, j));
}

pub proof fn lemma_point_reprs_subrange(s: Seq<Point>, i: int, j: int)
    requires
        0 <= i <= j <= s.len(),
    ensures
        point_reprs(s.subrange(i, j)) == point_reprs(s).subrange(i, j),
{
    assert(point_reprs(s.subrange(i, j)) =~= point_reprs(s).subrange(i, j));
}

/// The part of a slice of scalars from `i` up to `j`.
pub fn scalar_range(s: &[Scalar], i: usize, j: usize) -> (r: &[Scalar])
    requires
        i <= j <= s@.len(),
    ensures
        r@ == s@.subrange(i as int, j as int),
        scalar_values(r@) == scalar_values(s@).subrange(i as int, j as int),
        scalars_wf(s@) ==> scalars_wf(r@),
{
    proof {
        lemma_scalar_values_subrange(s@, i as int, j as int);
    }
    slice_subrange(s, i, j)
}

/// The part of a slice of points from `i` up to `j`.
pub fn point_range(s: &[Point], i: usize, j: usize) -> (r: &[Point])
    requires
        i <= j <= s@.len(),
    ensures
        r@ == s@.subrange(i as int, j as int),
        point_reprs(r@) == point_reprs(s@).subrange(i as int, j as int),
        points_wf(s@) ==> points_wf(r@),
{
    proof {
        lemma_point_reprs_subrange(s@, i as int, j as int);
    }
    slice_subrange(s, i, j)
}

/// The scalars of `x`, then those of `y`, then `z`.
pub fn chain_scalars(x: &[Scalar], y: &[Scalar], z: Scalar) -> (r: Vec<Scalar>)
    ensures
        scalar_values(r@) == scalar_values(x@) + scalar_values(y@) + seq![z@],
{
    let mut out: Vec<Scalar> = Vec::new();
    let mut i: usize = 0;
    while i < x.len()
        invariant
            i <= x@.len(),
            out@ == x@.subrange(0, i as int),
        decreases x@.len() - i,
    {
        out.push(x[i]);
        i += 1;
        assert(out@ =~= x@.subrange(0, i as int));
    }
    let mut j: usize = 0;
    while j < y.len()
        invariant
            i == x@.len(),
            j <= y@.len(),
            out@ == x@.subrange(0, i as int) + y@.subrange(0, j as int),
        decreases y@.len() - j,
    {
        out.push(y[j]);
        j += 1;
        assert(out@ =~= x@.subrange(0, i as int) + y@.subrange(0, j as int));
    }
    out.push(z);
    assert(scalar_values(out@) =~= scalar_values(x@) + scalar_values(y@) + seq![z@]);
    out
}

/// The points of `x`, then those of `y`, then `z`.
pub fn chain_points(x: &[Point], y: &[Point], z: Point) -> (r: Vec<Point>)
    ensures
        point_reprs(r@) == point_reprs(x@) + point_reprs(y@) + seq![z@],
        points_wf(x@) && points_wf(y@) && z.wf() ==> points_wf(r@),
{
    let mut out: Vec<Point> = Vec::new();
    let mut i: usize = 0;
    while i < x.len()
        invariant
            i <= x@.len(),
            out@ == x@.subrange(0, i as int),
        decreases x@.len() - i,
    {
        out.push(x[i]);
        i += 1;
        assert(out@ =~= x@.subrange(0, i as int));
    }
    let mut j: usize = 0;
    while j < y.len()
        invariant
            i == x@.len(),
            j <= y@.len(),
            out@ == x@.subrange(0, i as int) + y@.subrange(0, j as int),
        decreases y@.len() - j,
    {
        out.push(y[j]);
        j += 1;
        assert(out@ =~= x@.subrange(0, i as int) + y@.subrange(0, j as int));
    }
    out.push(z);
    assert(point_reprs(out@) =~= point_reprs(x@) + point_reprs(y@) + seq![z@]);
    out
}

/// Appends the points of `src` to `dst`.
pub fn extend_points(dst: &mut Vec<Point>, src: &[Point])
    ensures
        final(dst)@ == old(dst)@ + src@,
        point_reprs(final(dst)@) == point_reprs(old(dst)@) + point_reprs(src@),
        points_wf(old(dst)@) && points_wf(src@) ==> points_wf(final(dst)@),
{
    let ghost before = dst@;
    let mut i: usize = 0;
    while i < src.len()
        invariant
            i <= src@.len(),
            dst@ == before + src@.subrange(0, i as int),
        decreases src@.len() - i,
    {
        dst.push(src[i]);
        i += 1;
        assert(dst@ =~= before + src@.subrange(0, i as int));
    }
    assert(dst@ =~= before + src@);
    assert(point_reprs(dst@) =~= point_reprs(before) + point_reprs(src@));
}

/// Appends the scalars of `src` to `dst`.
pub fn extend_scalars(dst: &mut Vec<Scalar>, src: &[Scalar])
    ensures
        final(dst)@ == old(dst)@ + src@,
        scalar_values(final(dst)@) == scalar_values(old(dst)@) + scalar_values(src@),
{
    let ghost before = dst@;
    let mut i: usize = 0;
    while i < src.len()
        invariant
            i <= src@.len(),
            dst@ == before + src@.subrange(0, i as int),
        decreases src@.len() - i,
    {
        dst.push(src[i]);
        i += 1;
        assert(dst@ =~= before + src@.subrange(0, i as int));
    }
    assert(dst@ =~= before + src@);
    assert(scalar_values(dst@) =~= scalar_values(before) + scalar_values(src@));
}

/// The negation of each scalar.
pub fn negate_all(x: &[Scalar]) -> (r: Vec<Scalar>)
    ensures
        scalar_values(r@) == negations(scalar_values(x@)),
{
    let mut out: Vec<Scalar> = Vec::new();
    let mut i: usize = 0;
    while i < x.len()
        invariant
            i <= x@.len(),
            out@.len() == i,
            forall|j: int| 0 <= j < i ==> (#[trigger] out@[j])@ == fneg(x@[j]@),
        decreases x@.len() - i,
    {
        out.push(field_negation(&x[i]));
        i += 1;
    }
    assert(scalar_values(out@) =~= negations(scalar_values(x@)));
    out
}

/// The entrywise product of two vectors of scalars.
pub fn entrywise_product(x: &[Scalar], y: &[Scalar]) -> (r: Vec<Scalar>)
    requires
        x@.len() == y@.len(),
    ensures
        scalar_values(r@) == hadamard(scalar_values(x@), scalar_values(y@)),
        scalars_wf(r@),
{
    let mut out: Vec<Scalar> = Vec::new();
    let mut i: usize = 0;
    while i < x.len()
        invariant
            i <= x@.len(),
            x@.len() == y@.len(),
            out@.len() == i,
            scalars_wf(out@),
            forall|j: int| 0 <= j < i ==> (#[trigger] out@[j])@ == hadamard(
                scalar_values(x@),
                scalar_values(y@),
            )[j],
        decreases x@.len() - i,
    {
        out.push(field_product(&x[i], &y[i]));
        i += 1;
    }
    assert(scalar_values(out@) =~= hadamard(scalar_values(x@), scalar_values(y@)));
    out
}

/// Each point multiplied by the scalar at its index.
pub fn scale_points(factors: &[Scalar], points: &[Point]) -> (r: Vec<Point>)
    requires
        factors@.len() == points@.len(),
        points_wf(points@),
    ensures
        point_reprs(r@) == scaled_points(scalar_values(factors@), point_reprs(points@)),
        points_wf(r@),
{
    let mut out: Vec<Point> = Vec::new();
    let mut i: usize = 0;
    while i < points.len()
        invariant
            i <= points@.len(),
            factors@.len() == points@.len(),
            points_wf(points@),
            out@.len() == i,
            points_wf(out@),
            forall|j: int| 0 <= j < i ==> (#[trigger] out@[j])@ == scaled_points(
                scalar_values(factors@),
                point_reprs(points@),
            )[j],
        decreases points@.len() - i,
    {
        out.push(scale(&factors[i], &points[i]));
        i += 1;
    }
    assert(point_reprs(out@) =~= scaled_points(scalar_values(factors@), point_reprs(points@)));
    out
}

} // verus!
