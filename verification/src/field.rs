//! The scalar field of the Stark curve as plain mathematics: the integers
//! modulo the group order, and the big-endian byte encoding of its elements.

use vstd::arithmetic::div_mod::*;
use vstd::prelude::*;

verus! {

/// The order of the Stark curve's group, a prime of 252 bits:
/// `0x0800000000000010ffffffffffffffffb781126dcae7b2321e66a241adc64d2f`.
pub open spec fn field_order() -> nat {
    0x0800000000000010_ffffffffffffffffnat * (0x1_0000_0000_0000_0000nat
        * 0x1_0000_0000_0000_0000nat) + 0xb781126dcae7b232_1e66a241adc64d2fnat
}

/// Sum of two field elements.
pub open spec fn fadd(x: nat, y: nat) -> nat {
    (x + y) % field_order()
}

/// Product of two field elements.
pub open spec fn fmul(x: nat, y: nat) -> nat {
    (x * y) % field_order()
}

/// Additive inverse of a field element.
pub open spec fn fneg(x: nat) -> nat {
    ((field_order() - x % field_order()) % (field_order() as int)) as nat
}

/// `y` is the multiplicative inverse of `x`.
pub open spec fn is_inverse_of(x: nat, y: nat) -> bool {
    y < field_order() && fmul(x, y) == 1
}

/// `x` has a multiplicative inverse.
pub open spec fn is_unit(x: nat) -> bool {
    exists|y: nat| is_inverse_of(x, y)
}

/// The multiplicative inverse of `x`, and zero where `x` has none.
pub open spec fn finv(x: nat) -> nat {
    if is_unit(x) {
        choose|y: nat| is_inverse_of(x, y)
    } else {
        0
    }
}

/// The number that a byte string denotes, most significant byte first.
pub open spec fn be_nat(bytes: Seq<u8>) -> nat
    decreases bytes.len(),
{
    if bytes.len() == 0 {
        0
    } else {
        be_nat(bytes.drop_last()) * 256 + bytes.last() as nat
    }
}

/// The `len` low-order bytes of `v`, most significant byte first.
pub open spec fn be_bytes(v: nat, len: nat) -> Seq<u8>
    decreases len,
{
    if len == 0 {
        Seq::empty()
    } else {
        be_bytes(v / 256, (len - 1) as nat).push((v % 256) as u8)
    }
}

/// 256 to the power `n`.
pub open spec fn pow256(n: nat) -> nat
    decreases n,
{
    if n == 0 {
        1
    } else {
        256 * pow256((n - 1) as nat)
    }
}

pub proof fn lemma_field_order_bounds()
    ensures
        1 < field_order() < pow256(32),
{
    reveal_with_fuel(pow256, 33);
}

pub proof fn lemma_be_bytes_len(v: nat, len: nat)
    ensures
        be_bytes(v, len).len() == len,
    decreases len,
{
    if len > 0 {
        lemma_be_bytes_len(v / 256, (len - 1) as nat);
    }
}

/// Encoding the number that a byte string denotes, at the string's own
/// length, gives the string back.
pub proof fn lemma_be_bytes_of_be_nat(bytes: Seq<u8>)
    ensures
        be_bytes(be_nat(bytes), bytes.len()) == bytes,
    decreases bytes.len(),
{
    if bytes.len() > 0 {
        let head = bytes.drop_last();
        let v = be_nat(bytes);
        lemma_be_bytes_of_be_nat(head);
        lemma_fundamental_div_mod_converse(
            v as int,
            256,
            be_nat(head) as int,
            bytes.last() as int,
        );
        assert(be_bytes(v, bytes.len()) =~= bytes);
    } else {
        assert(be_bytes(be_nat(bytes), bytes.len()) =~= bytes);
    }
}

/// A number below `256^len` is the number that its `len`-byte encoding denotes.
pub proof fn lemma_be_nat_of_be_bytes(v: nat, len: nat)
    requires
        v < pow256(len),
    ensures
        be_nat(be_bytes(v, len)) == v,
    decreases len,
{
    if len > 0 {
        let rest = be_bytes(v / 256, (len - 1) as nat);
        lemma_fundamental_div_mod(v as int, 256);
        assert(v / 256 < pow256((len - 1) as nat)) by (nonlinear_arith)
            requires
                v < 256 * pow256((len - 1) as nat),
        ;
        lemma_be_nat_of_be_bytes(v / 256, (len - 1) as nat);
        assert(be_bytes(v, len).drop_last() =~= rest);
    }
}

/// Two byte strings of one length that denote the same number are equal.
pub proof fn lemma_be_nat_injective(x: Seq<u8>, y: Seq<u8>)
    requires
        x.len() == y.len(),
        be_nat(x) == be_nat(y),
    ensures
        x == y,
{
    lemma_be_bytes_of_be_nat(x);
    lemma_be_bytes_of_be_nat(y);
}

pub proof fn lemma_fmul_commutative(x: nat, y: nat)
    ensures
        fmul(x, y) == fmul(y, x),
{
    assert(x * y == y * x) by (nonlinear_arith);
}

pub proof fn lemma_fmul_associative(x: nat, y: nat, z: nat)
    ensures
        fmul(fmul(x, y), z) == fmul(x, fmul(y, z)),
{
    let q = field_order() as int;
    lemma_mul_mod_noop_left((x * y) as int, z as int, q);
    lemma_mul_mod_noop_right(x as int, (y * z) as int, q);
    assert((x * y) * z == x * (y * z)) by (nonlinear_arith);
}

pub proof fn lemma_fmul_one(x: nat)
    requires
        x < field_order(),
    ensures
        fmul(x, 1) == x,
        fmul(1, x) == x,
{
    lemma_small_mod(x, field_order());
    assert(x * 1 == x && 1 * x == x) by (nonlinear_arith);
}

pub proof fn lemma_fmul_zero(x: nat)
    ensures
        fmul(x, 0) == 0,
        fmul(0, x) == 0,
{
    assert(x * 0 == 0 && 0 * x == 0) by (nonlinear_arith);
    lemma_small_mod(0, field_order());
}

pub proof fn lemma_fmul_bound(x: nat, y: nat)
    ensures
        fmul(x, y) < field_order(),
{
    lemma_mod_bound((x * y) as int, field_order() as int);
}

/// A field element has at most one multiplicative inverse.
pub proof fn lemma_inverse_unique(x: nat, y: nat, z: nat)
    requires
        is_inverse_of(x, y),
        is_inverse_of(x, z),
    ensures
        y == z,
{
    // y = y * (x * z) = (y * x) * z = z
    lemma_fmul_associative(y, x, z);
    lemma_fmul_commutative(y, x);
    lemma_fmul_one(y);
    lemma_fmul_one(z);
}

/// An element with inverse `y` has `finv` equal to `y`.
pub proof fn lemma_finv_is(x: nat, y: nat)
    requires
        is_inverse_of(x, y),
    ensures
        is_unit(x),
        finv(x) == y,
{
    let w = choose|w: nat| is_inverse_of(x, w);
    lemma_inverse_unique(x, y, w);
}

/// Zero has no inverse, so `finv(0)` is zero.
pub proof fn lemma_finv_zero()
    ensures
        !is_unit(0),
        finv(0) == 0,
{
    assert forall|y: nat| !is_inverse_of(0, y) by {
        lemma_fmul_zero(y);
    }
}

/// A unit times its inverse is one, on either side.
pub proof fn lemma_finv_cancels(x: nat)
    requires
        is_unit(x),
    ensures
        fmul(x, finv(x)) == 1,
        fmul(finv(x), x) == 1,
        finv(x) < field_order(),
{
    lemma_fmul_commutative(x, finv(x));
}

} // verus!
