//! Scalars of the Stark curve: elements of the field of integers modulo the
//! group order.
//!
//! A [`Scalar`] holds the canonical 32-byte big-endian encoding of its value.
//! The arithmetic itself is done by `mpc_stark`; what each operation returns
//! is stated here over the value as a natural number.

use crate::field::{
    be_bytes, be_nat, fadd, field_order, finv, fmul, fneg, is_inverse_of, is_unit,
    lemma_be_bytes_of_be_nat, lemma_be_nat_injective, lemma_finv_is, lemma_finv_zero,
};
use mpc_stark::algebra::scalar::Scalar as StarkScalar;
use vstd::arithmetic::div_mod::lemma_small_mod;
use vstd::prelude::*;

verus! {

/// Number of bytes in the encoding of a scalar.
pub const SCALAR_BYTES: usize = 32;

/// An element of the scalar field.
#[derive(Clone, Copy, Debug, PartialEq, Eq)]
pub struct Scalar {
    pub(crate) bytes: [u8; 32],
}

impl View for Scalar {
    type V = nat;

    /// The value of the scalar: the number that its bytes denote.
    closed spec fn view(&self) -> nat {
        be_nat(self.bytes@)
    }
}

/// The values of a sequence of scalars.
pub open spec fn scalar_values(s: Seq<Scalar>) -> Seq<nat> {
    Seq::new(s.len(), |i: int| s[i]@)
}

/// Every scalar of the sequence is reduced.
pub open spec fn scalars_wf(s: Seq<Scalar>) -> bool {
    forall|i: int| 0 <= i < s.len() ==> (#[trigger] s[i]).wf()
}

/// `StarkScalar::from_be_bytes_mod_order`, which reads any number of bytes
/// as a big-endian number and reduces it modulo the field order.
#[verifier::external_body]
fn reduce_be_bytes(bytes: &[u8]) -> (r: Scalar)
    ensures
        r.wf(),
        r@ == be_nat(bytes@) % field_order(),
{
    let x = StarkScalar::from_be_bytes_mod_order(bytes);
    Scalar { bytes: x.to_bytes_be().try_into().unwrap() }
}

/// The conversion `StarkScalar::from` of a `u64`, which is below the field
/// order and so stands for itself.
#[verifier::external_body]
fn embed_u64(x: u64) -> (r: Scalar)
    ensures
        r.wf(),
        r@ == x,
{
    Scalar { bytes: StarkScalar::from(x).to_bytes_be().try_into().unwrap() }
}

/// The `+` of `StarkScalar`: addition in the field.
#[verifier::external_body]
pub(crate) fn field_sum(a: &Scalar, b: &Scalar) -> (r: Scalar)
    ensures
        r.wf(),
        r@ == fadd(a@, b@),
{
    let x = StarkScalar::from_be_bytes_mod_order(&a.bytes);
    let y = StarkScalar::from_be_bytes_mod_order(&b.bytes);
    Scalar { bytes: (x + y).to_bytes_be().try_into().unwrap() }
}

/// The `*` of `StarkScalar`: multiplication in the field.
#[verifier::external_body]
pub(crate) fn field_product(a: &Scalar, b: &Scalar) -> (r: Scalar)
    ensures
        r.wf(),
        r@ == fmul(a@, b@),
{
    let x = StarkScalar::from_be_bytes_mod_order(&a.bytes);
    let y = StarkScalar::from_be_bytes_mod_order(&b.bytes);
    Scalar { bytes: (x * y).to_bytes_be().try_into().unwrap() }
}

/// The unary `-` of `StarkScalar`: the additive inverse in the field.
#[verifier::external_body]
pub(crate) fn field_negation(a: &Scalar) -> (r: Scalar)
    ensures
        r.wf(),
        r@ == fneg(a@),
{
    let x = StarkScalar::from_be_bytes_mod_order(&a.bytes);
    Scalar { bytes: (-x).to_bytes_be().try_into().unwrap() }
}

/// `StarkScalar::inverse`, which panics on zero and otherwise returns the
/// element whose product with the argument is one.
#[verifier::external_body]
fn field_inverse(a: &Scalar) -> (r: Scalar)
    requires
        a@ % field_order() != 0,
    ensures
        r.wf(),
        is_inverse_of(a@, r@),
{
    let x = StarkScalar::from_be_bytes_mod_order(&a.bytes);
    Scalar { bytes: x.inverse().to_bytes_be().try_into().unwrap() }
}

/// `StarkScalar::batch_inverse`, which replaces each non-zero element by its
/// inverse and leaves each zero as it is.
#[verifier::external_body]
fn field_batch_inverse(vals: &mut Vec<Scalar>)
    requires
        scalars_wf(old(vals)@),
    ensures
        final(vals)@.len() == old(vals)@.len(),
        scalars_wf(final(vals)@),
        forall|i: int|
            0 <= i < old(vals)@.len() ==> if old(vals)@[i]@ == 0 {
                (#[trigger] final(vals)@[i])@ == 0
            } else {
                is_inverse_of(old(vals)@[i]@, final(vals)@[i]@)
            },
{
    let mut xs: Vec<StarkScalar> =
        vals.iter().map(|v| StarkScalar::from_be_bytes_mod_order(&v.bytes)).collect();
    StarkScalar::batch_inverse(&mut xs);
    for (v, x) in vals.iter_mut().zip(xs) {
        v.bytes = x.to_bytes_be().try_into().unwrap();
    }
}

impl Scalar {
    /// The scalar is reduced: its value is below the field order.
    pub closed spec fn wf(self) -> bool {
        be_nat(self.bytes@) < field_order()
    }

    /// The canonical encoding of the scalar.
    pub closed spec fn repr(self) -> Seq<u8> {
        self.bytes@
    }

    /// The encoding is the 32-byte big-endian form of the value.
    pub proof fn lemma_repr(self)
        ensures
            self.repr() == be_bytes(self@, 32),
            self.repr().len() == 32,
            be_nat(self.repr()) == self@,
    {
        lemma_be_bytes_of_be_nat(self.bytes@);
    }

    /// A reduced scalar has a value below the field order.
    pub proof fn lemma_wf_bound(self)
        requires
            self.wf(),
        ensures
            self@ < field_order(),
    {
    }

    /// Scalars with one value are one scalar.
    pub proof fn lemma_value_injective(self, other: Scalar)
        requires
            self@ == other@,
        ensures
            self == other,
    {
        lemma_be_nat_injective(self.bytes@, other.bytes@);
        assert(self.bytes =~= other.bytes);
    }

    /// The additive identity.
    pub fn zero() -> (r: Scalar)
        ensures
            r.wf(),
            r@ == 0,
    {
        embed_u64(0)
    }

    /// The multiplicative identity.
    pub fn one() -> (r: Scalar)
        ensures
            r.wf(),
            r@ == 1,
    {
        embed_u64(1)
    }

    /// The scalar whose value is `x`.
    pub fn from_u64(x: u64) -> (r: Scalar)
        ensures
            r.wf(),
            r@ == x,
    {
        embed_u64(x)
    }

    /// Reads `bytes` as a big-endian number and reduces it modulo the field
    /// order.
    pub fn from_be_bytes_mod_order(bytes: &[u8]) -> (r: Scalar)
        ensures
            r.wf(),
            r@ == be_nat(bytes@) % field_order(),
    {
        reduce_be_bytes(bytes)
    }

    /// The 32-byte big-endian encoding of the value.
    pub fn to_bytes_be(&self) -> (r: Vec<u8>)
        ensures
            r@ == be_bytes(self@, 32),
            r@.len() == 32,
    {
        let mut out: Vec<u8> = Vec::with_capacity(SCALAR_BYTES);
        let mut i: usize = 0;
        while i < SCALAR_BYTES
            invariant
                i <= 32,
                out@ == self.bytes@.subrange(0, i as int),
            decreases 32 - i,
        {
            out.push(self.bytes[i]);
            i += 1;
            assert(out@ =~= self.bytes@.subrange(0, i as int));
        }
        proof {
            assert(out@ =~= self.bytes@);
            self.lemma_repr();
        }
        out
    }

    /// Whether two scalars have the same value.
    pub fn equals(&self, other: &Scalar) -> (r: bool)
        ensures
            r == (self@ == other@),
    {
        let mut i: usize = 0;
        while i < SCALAR_BYTES
            invariant
                i <= 32,
                self.bytes@.subrange(0, i as int) == other.bytes@.subrange(0, i as int),
            decreases 32 - i,
        {
            if self.bytes[i] != other.bytes[i] {
                proof {
                    if self@ == other@ {
                        lemma_be_nat_injective(self.bytes@, other.bytes@);
                    }
                }
                return false;
            }
            i += 1;
            assert(self.bytes@.subrange(0, i as int) =~= other.bytes@.subrange(0, i as int)) by {
                assert forall|j: int| 0 <= j < i implies self.bytes@[j] == other.bytes@[j] by {
                    if j < i - 1 {
                        assert(self.bytes@.subrange(0, i - 1)[j] == other.bytes@.subrange(
                            0,
                            i - 1,
                        )[j]);
                    }
                }
            }
        }
        proof {
            assert(self.bytes@ =~= self.bytes@.subrange(0, 32));
            assert(other.bytes@ =~= other.bytes@.subrange(0, 32));
        }
        true
    }

    /// Whether the value is zero.
    pub fn is_zero(&self) -> (r: bool)
        ensures
            r == (self@ == 0),
    {
        let z = Scalar::zero();
        self.equals(&z)
    }

    /// The multiplicative inverse, and zero for zero.
    pub fn inverse(&self) -> (r: Scalar)
        requires
            self.wf(),
        ensures
            r.wf(),
            r@ == finv(self@),
    {
        if self.is_zero() {
            proof {
                lemma_finv_zero();
            }
            Scalar::zero()
        } else {
            proof {
                lemma_small_mod(self@, field_order());
            }
            let r = field_inverse(self);
            proof {
                lemma_finv_is(self@, r@);
            }
            r
        }
    }

    /// Replaces each scalar by its multiplicative inverse, and leaves each
    /// zero as it is.
    pub fn batch_inverse(vals: &mut Vec<Scalar>)
        requires
            scalars_wf(old(vals)@),
        ensures
            final(vals)@.len() == old(vals)@.len(),
            scalars_wf(final(vals)@),
            forall|i: int|
                0 <= i < old(vals)@.len() ==> (#[trigger] final(vals)@[i])@ == finv(
                    old(vals)@[i]@,
                ),
            forall|i: int|
                0 <= i < old(vals)@.len() && old(vals)@[i]@ != 0 ==> is_unit(
                    (#[trigger] old(vals)@[i])@,
                ),
    {
        let ghost before = vals@;
        field_batch_inverse(vals);
        proof {
            lemma_finv_zero();
            assert forall|i: int| 0 <= i < before.len() implies (#[trigger] vals@[i])@ == finv(
                before[i]@,
            ) by {
                if before[i]@ != 0 {
                    lemma_finv_is(before[i]@, vals@[i]@);
                }
            }
            assert forall|i: int| 0 <= i < before.len() && before[i]@ != 0 implies is_unit(
                (#[trigger] before[i])@,
            ) by {
                lemma_finv_is(before[i]@, vals@[i]@);
            }
        }
    }
}

} // verus!
