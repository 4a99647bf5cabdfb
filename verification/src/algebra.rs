//! The vector operations of the inner-product argument, as mathematics over
//! scalar values and point encodings.

use crate::field::{fadd, fmul};
use crate::point::{msm_value, scaled_value};
use vstd::prelude::*;

verus! {

/// The inner product of two vectors of scalars: the sum of the products of
/// the entries at each index.
pub open spec fn dot(a: Seq<nat>, b: Seq<nat>) -> nat
    decreases a.len(),
{
    if a.len() == 0 || b.len() == 0 {
        0
    } else {
        fadd(dot(a.drop_last(), b.drop_last()), fmul(a.last(), b.last()))
    }
}

/// The product of the entries of a vector, taken from the first on.
pub open spec fn product(a: Seq<nat>) -> nat
    decreases a.len(),
{
    if a.len() == 0 {
        1
    } else {
        fmul(product(a.drop_last()), a.last())
    }
}

/// The entrywise product of two vectors of scalars.
pub open spec fn hadamard(a: Seq<nat>, b: Seq<nat>) -> Seq<nat> {
    Seq::new(a.len(), |i: int| fmul(a[i], b[i]))
}

/// Each point multiplied by the scalar at its index.
pub open spec fn scaled_points(factors: Seq<nat>, points: Seq<Seq<u8>>) -> Seq<Seq<u8>> {
    Seq::new(points.len(), |i: int| scaled_value(factors[i], points[i]))
}

/// The first half of a vector.
pub open spec fn lo<T>(s: Seq<T>) -> Seq<T> {
    s.subrange(0, (s.len() / 2) as int)
}

/// The second half of a vector.
pub open spec fn hi<T>(s: Seq<T>) -> Seq<T> {
    s.subrange((s.len() / 2) as int, s.len() as int)
}

/// The halves of the witness `a` folded with challenge `u`:
/// `u * a_lo[i] + u_inv * a_hi[i]` at each index.
pub open spec fn folded_a(u: nat, u_inv: nat, a_lo: Seq<nat>, a_hi: Seq<nat>) -> Seq<nat> {
    Seq::new(a_lo.len(), |i: int| fadd(fmul(a_lo[i], u), fmul(u_inv, a_hi[i])))
}

/// The halves of the witness `b` folded with challenge `u`:
/// `u_inv * b_lo[i] + u * b_hi[i]` at each index.
pub open spec fn folded_b(u: nat, u_inv: nat, b_lo: Seq<nat>, b_hi: Seq<nat>) -> Seq<nat> {
    Seq::new(b_lo.len(), |i: int| fadd(fmul(b_lo[i], u_inv), fmul(u, b_hi[i])))
}

/// The halves of the bases `G` folded with challenge `u`:
/// `u_inv * G_lo[i] + u * G_hi[i]` at each index.
pub open spec fn folded_g(u: nat, u_inv: nat, g_lo: Seq<Seq<u8>>, g_hi: Seq<Seq<u8>>) -> Seq<
    Seq<u8>,
> {
    Seq::new(g_lo.len(), |i: int| msm_value(seq![u_inv, u], seq![g_lo[i], g_hi[i]]))
}

/// The halves of the bases `H` folded with challenge `u`:
/// `u * H_lo[i] + u_inv * H_hi[i]` at each index.
pub open spec fn folded_h(u: nat, u_inv: nat, h_lo: Seq<Seq<u8>>, h_hi: Seq<Seq<u8>>) -> Seq<
    Seq<u8>,
> {
    Seq::new(h_lo.len(), |i: int| msm_value(seq![u, u_inv], seq![h_lo[i], h_hi[i]]))
}

/// `n` is a power of two.
pub open spec fn is_power_of_two(n: nat) -> bool
    decreases n,
{
    n == 1 || (n > 1 && n % 2 == 0 && is_power_of_two(n / 2))
}

} // verus!
