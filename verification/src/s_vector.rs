//! The vector `s` in closed form: each entry is a product over the rounds,
//! of the round's challenge where the entry's index has the round's bit set
//! and of its inverse where not. From that form it follows that the entry
//! at `i` and the entry at `n - 1 - i` are inverse to each other.

use crate::algebra::product;
use crate::field::{
    field_order, finv, fmul, is_unit, lemma_field_order_bounds, lemma_finv_cancels,
    lemma_fmul_associative, lemma_fmul_bound, lemma_fmul_commutative, lemma_fmul_one,
};
use crate::verification::{floor_log2, inverses, lemma_floor_log2_bounds, s_entry, squares};
use vstd::arithmetic::div_mod::{
    lemma_basic_div, lemma_fundamental_div_mod, lemma_fundamental_div_mod_converse,
    lemma_small_mod,
};
use vstd::arithmetic::power2::{
    lemma_pow2_adds, lemma_pow2_pos, lemma_pow2_strictly_increases, lemma_pow2_unfold, pow2,
};
use vstd::prelude::*;

verus! {

/// Bit `pos` of `i` is set.
pub open spec fn bit(i: nat, pos: nat) -> bool {
    (i / pow2(pos)) % 2 == 1
}

/// Every challenge has an inverse.
pub open spec fn all_units(ch: Seq<nat>) -> bool {
    forall|t: int| 0 <= t < ch.len() ==> is_unit(#[trigger] ch[t])
}

/// The factor of round `t` in the entry at index `i`: the round's
/// challenge where `i` has the round's bit set, and its inverse where not.
/// The first round stands for the highest bit.
pub open spec fn s_factor(ch: Seq<nat>, i: nat, t: int) -> nat {
    if bit(i, (ch.len() - 1 - t) as nat) {
        ch[t] % field_order()
    } else {
        finv(ch[t])
    }
}

/// The product of the factors of the first `m` rounds in the entry at `i`.
pub open spec fn s_partial(ch: Seq<nat>, i: nat, m: nat) -> nat
    decreases m,
{
    if m == 0 {
        1
    } else {
        fmul(s_partial(ch, i, (m - 1) as nat), s_factor(ch, i, m - 1))
    }
}

/// The entry at index `i` in closed form: the product of the factors of all
/// rounds.
pub open spec fn s_closed(ch: Seq<nat>, i: nat) -> nat {
    s_partial(ch, i, ch.len())
}

proof fn lemma_fmul_reduce_left(x: nat, y: nat)
    ensures
        fmul(x % field_order(), y) == fmul(x, y),
        fmul(y, x % field_order()) == fmul(y, x),
{
    vstd::arithmetic::div_mod::lemma_mul_mod_noop_left(x as int, y as int, field_order() as int);
    vstd::arithmetic::div_mod::lemma_mul_mod_noop_right(y as int, x as int, field_order() as int);
}

proof fn lemma_fmul_swap(a: nat, b: nat, c: nat)
    ensures
        fmul(fmul(a, b), c) == fmul(fmul(a, c), b),
{
    lemma_fmul_associative(a, b, c);
    lemma_fmul_commutative(b, c);
    lemma_fmul_associative(a, c, b);
}

proof fn lemma_fmul_pairs(a: nat, b: nat, c: nat, d: nat)
    ensures
        fmul(fmul(a, b), fmul(c, d)) == fmul(fmul(a, c), fmul(b, d)),
{
    // (ab)(cd) = a(b(cd)) = a((bc)d) = a((cb)d) = a(c(bd)) = (ac)(bd)
    lemma_fmul_associative(a, b, fmul(c, d));
    lemma_fmul_associative(b, c, d);
    lemma_fmul_commutative(b, c);
    lemma_fmul_associative(c, b, d);
    lemma_fmul_associative(a, c, fmul(b, d));
}

proof fn lemma_s_partial_bound(ch: Seq<nat>, i: nat, m: nat)
    ensures
        s_partial(ch, i, m) < field_order(),
{
    lemma_field_order_bounds();
    if m > 0 {
        lemma_fmul_bound(s_partial(ch, i, (m - 1) as nat), s_factor(ch, i, m - 1));
    }
}

/// Below two to the power `pos`, bit `pos` is not set.
proof fn lemma_bit_above(i: nat, pos: nat)
    requires
        i < pow2(pos),
    ensures
        !bit(i, pos),
{
    lemma_basic_div(i as int, pow2(pos) as int);
}

/// The bits of `i` and of `i` without its highest bit: the highest bit is
/// set in the one and not in the other, and all others agree.
proof fn lemma_bits_without_top(i: nat, pos: nat)
    requires
        i > 0,
    ensures
        pos == floor_log2(i) ==> bit(i, pos) && !bit((i - pow2(floor_log2(i))) as nat, pos),
        pos != floor_log2(i) ==> bit(i, pos) == bit((i - pow2(floor_log2(i))) as nat, pos),
{
    let lg = floor_log2(i);
    let top = pow2(lg);
    let rest = (i - top) as nat;
    let p = pow2(pos);
    lemma_floor_log2_bounds(i);
    lemma_pow2_unfold(lg + 1);
    lemma_pow2_pos(pos);
    if pos == lg {
        lemma_fundamental_div_mod_converse(i as int, p as int, 1, rest as int);
        lemma_bit_above(rest, pos);
    } else if pos > lg {
        if pos > lg + 1 {
            lemma_pow2_strictly_increases(lg + 1, pos);
        }
        lemma_bit_above(i, pos);
        lemma_bit_above(rest, pos);
    } else {
        let e = pow2((lg - pos) as nat);
        let half = pow2((lg - pos - 1) as nat);
        lemma_pow2_adds((lg - pos) as nat, pos);
        lemma_pow2_unfold((lg - pos) as nat);
        lemma_fundamental_div_mod(rest as int, p as int);
        let q = rest / p;
        let r = rest % p;
        assert(i == (q + e) * p + r) by (nonlinear_arith)
            requires
                i == rest + top,
                top == e * p,
                rest == p * q + r,
        ;
        lemma_fundamental_div_mod_converse(i as int, p as int, (q + e) as int, r as int);
        assert(i / p == q + 2 * half);
    }
}

/// The bits of `i` and of its mirror `2^k - 1 - i` are opposite.
proof fn lemma_bits_of_mirror(k: nat, i: nat, pos: nat)
    requires
        i < pow2(k),
        pos < k,
    ensures
        bit((pow2(k) - 1 - i) as nat, pos) == !bit(i, pos),
{
    let p = pow2(pos);
    let m = pow2((k - pos) as nat);
    let half = pow2((k - pos - 1) as nat);
    let mirror = (pow2(k) - 1 - i) as nat;
    lemma_pow2_pos(pos);
    lemma_pow2_adds((k - pos) as nat, pos);
    lemma_pow2_unfold((k - pos) as nat);
    lemma_fundamental_div_mod(i as int, p as int);
    let q = i / p;
    let r = i % p;
    assert(q < m) by (nonlinear_arith)
        requires
            i == p * q + r,
            0 <= r,
            i < m * p,
            p > 0,
    ;
    assert(mirror == (m - 1 - q) * p + (p - 1 - r)) by (nonlinear_arith)
        requires
            mirror == m * p - 1 - i,
            i == p * q + r,
    ;
    lemma_fundamental_div_mod_converse(
        mirror as int,
        p as int,
        (m - 1 - q) as int,
        (p - 1 - r) as int,
    );
    assert(mirror / p == 2 * half - 1 - q);
}

/// At index zero every factor is an inverse, so the closed form is the
/// product of the inverses.
proof fn lemma_s_partial_zero(ch: Seq<nat>, m: nat)
    requires
        m <= ch.len(),
    ensures
        s_partial(ch, 0, m) == product(inverses(ch).take(m as int)),
    decreases m,
{
    if m > 0 {
        lemma_s_partial_zero(ch, (m - 1) as nat);
        lemma_pow2_pos((ch.len() - m) as nat);
        lemma_bit_above(0, (ch.len() - m) as nat);
        assert(inverses(ch).take(m as int).drop_last() =~= inverses(ch).take(m - 1));
    }
}

/// The closed form at `i` against the closed form at `i` without its
/// highest bit: equal before the round of that bit, and from that round on
/// greater by the square of the round's challenge.
proof fn lemma_s_partial_without_top(ch: Seq<nat>, i: nat, m: nat)
    requires
        all_units(ch),
        0 < i < pow2(ch.len()),
        m <= ch.len(),
    ensures
        floor_log2(i) < ch.len(),
        m <= ch.len() - 1 - floor_log2(i) ==> s_partial(ch, i, m) == s_partial(
            ch,
            (i - pow2(floor_log2(i))) as nat,
            m,
        ),
        m > ch.len() - 1 - floor_log2(i) ==> s_partial(ch, i, m) == fmul(
            s_partial(ch, (i - pow2(floor_log2(i))) as nat, m),
            squares(ch)[ch.len() - 1 - floor_log2(i)],
        ),
    decreases m,
{
    let k = ch.len();
    let lg = floor_log2(i);
    let rest = (i - pow2(lg)) as nat;
    lemma_floor_log2_bounds(i);
    if lg >= k {
        if lg > k {
            lemma_pow2_strictly_increases(k, lg);
        }
    }
    let t = k - 1 - lg;
    if m > 0 {
        lemma_s_partial_without_top(ch, i, (m - 1) as nat);
        let pos = (k - m) as nat;
        lemma_bits_without_top(i, pos);
        let before = s_partial(ch, i, (m - 1) as nat);
        let before_rest = s_partial(ch, rest, (m - 1) as nat);
        let c = ch[t];
        let sq = fmul(c, c);
        assert(squares(ch)[t] == sq);
        if m - 1 == t {
            // before * c == (before * finv(c)) * (c * c)
            assert(is_unit(c));
            lemma_finv_cancels(c);
            lemma_s_partial_bound(ch, rest, (m - 1) as nat);
            lemma_fmul_reduce_left(c, before);
            lemma_fmul_associative(before, finv(c), sq);
            lemma_fmul_associative(finv(c), c, c);
            lemma_fmul_reduce_left(c, 1);
            lemma_fmul_commutative(1, c);
            lemma_fmul_commutative(1, c % field_order());
            assert(fmul(finv(c), sq) == fmul(1, c));
            assert(fmul(1, c) == fmul(c, 1));
            lemma_small_mod(c % field_order(), field_order());
            vstd::arithmetic::div_mod::lemma_mod_bound(c as int, field_order() as int);
            lemma_fmul_one(c % field_order());
            assert(fmul(1, c) == c % field_order());
        } else if m - 1 > t {
            let f = s_factor(ch, i, m - 1);
            lemma_fmul_swap(before_rest, sq, f);
        }
    }
}

/// The entry of `s` as it is computed, from the entry without the highest
/// bit, is the entry in closed form.
pub proof fn lemma_s_entry_is_closed(ch: Seq<nat>, i: nat)
    requires
        all_units(ch),
        i < pow2(ch.len()),
    ensures
        s_entry(ch, i) == s_closed(ch, i),
    decreases i,
{
    if i == 0 {
        lemma_s_partial_zero(ch, ch.len());
        assert(inverses(ch).take(ch.len() as int) =~= inverses(ch));
    } else {
        let lg = floor_log2(i);
        lemma_floor_log2_bounds(i);
        lemma_pow2_pos(lg);
        lemma_s_entry_is_closed(ch, (i - pow2(lg)) as nat);
        lemma_s_partial_without_top(ch, i, ch.len());
    }
}

/// The closed forms at an index and at its mirror multiply to one, round by
/// round.
proof fn lemma_s_partial_mirror(ch: Seq<nat>, i: nat, m: nat)
    requires
        all_units(ch),
        i < pow2(ch.len()),
        m <= ch.len(),
    ensures
        fmul(s_partial(ch, i, m), s_partial(ch, (pow2(ch.len()) - 1 - i) as nat, m)) == 1,
    decreases m,
{
    let k = ch.len();
    let mirror = (pow2(k) - 1 - i) as nat;
    lemma_field_order_bounds();
    if m == 0 {
        lemma_fmul_one(1);
    } else {
        lemma_s_partial_mirror(ch, i, (m - 1) as nat);
        lemma_bits_of_mirror(k, i, (k - m) as nat);
        let c = ch[m - 1];
        assert(is_unit(c));
        lemma_finv_cancels(c);
        lemma_fmul_reduce_left(c, finv(c));
        let x = s_partial(ch, i, (m - 1) as nat);
        let y = s_partial(ch, mirror, (m - 1) as nat);
        lemma_fmul_pairs(x, s_factor(ch, i, m - 1), y, s_factor(ch, mirror, m - 1));
        lemma_fmul_one(1);
    }
}

/// The entry of `s` at `i` and the entry at `n - 1 - i` are inverse to each
/// other, where every challenge has an inverse.
pub proof fn lemma_s_entries_are_reciprocal(ch: Seq<nat>, i: nat)
    requires
        all_units(ch),
        i < pow2(ch.len()),
    ensures
        fmul(s_entry(ch, (pow2(ch.len()) - 1 - i) as nat), s_entry(ch, i)) == 1,
{
    let mirror = (pow2(ch.len()) - 1 - i) as nat;
    lemma_s_entry_is_closed(ch, i);
    lemma_s_entry_is_closed(ch, mirror);
    lemma_s_partial_mirror(ch, i, ch.len());
    lemma_fmul_commutative(s_closed(ch, i), s_closed(ch, mirror));
}

} // verus!
