//! The wire format of a proof: the pairs `L[i]`, `R[i]` in order, each
//! point in 32 bytes, then the scalars `a` and `b`, each in 32 bytes, most
//! significant byte first.

use crate::field::{
    be_bytes, be_nat, field_order, lemma_be_bytes_len, lemma_be_nat_of_be_bytes,
    lemma_field_order_bounds,
};
use crate::point::{is_canonical_point, point_decoding};
use vstd::arithmetic::div_mod::lemma_small_mod;
use vstd::prelude::*;

verus! {

/// What a proof holds: the encodings of its points and the values of its
/// scalars.
pub struct ProofView {
    pub l: Seq<Seq<u8>>,
    pub r: Seq<Seq<u8>>,
    pub a: nat,
    pub b: nat,
}

/// The number of rounds in a proof: the number of pairs `L[i]`, `R[i]`.
pub open spec fn rounds(v: ProofView) -> nat {
    if v.l.len() <= v.r.len() {
        v.l.len()
    } else {
        v.r.len()
    }
}

/// The first `k` pairs `l[i]`, `r[i]`, one after the other.
pub open spec fn encoded_pairs(l: Seq<Seq<u8>>, r: Seq<Seq<u8>>, k: nat) -> Seq<u8>
    decreases k,
{
    if k == 0 {
        Seq::empty()
    } else {
        encoded_pairs(l, r, (k - 1) as nat) + l[k - 1] + r[k - 1]
    }
}

/// The bytes that stand for a proof.
pub open spec fn encoding(v: ProofView) -> Seq<u8> {
    encoded_pairs(v.l, v.r, rounds(v)) + be_bytes(v.a, 32) + be_bytes(v.b, 32)
}

/// The number of rounds of a proof that is encoded in `len` bytes: two
/// scalars and an even number of points, fewer than 32 pairs of them.
pub open spec fn framed_rounds(len: nat) -> Option<nat> {
    if len >= 64 && (len - 64) % 32 == 0 && ((len - 64) / 32) % 2 == 0 && ((len - 64) / 32) / 2
        < 32 {
        Some((((len - 64) / 32) / 2) as nat)
    } else {
        None
    }
}

/// The 32 bytes at the place of element `idx`.
pub open spec fn chunk(bytes: Seq<u8>, idx: int) -> Seq<u8> {
    bytes.subrange(32 * idx, 32 * idx + 32)
}

/// Each of the first `count` elements is the encoding of a point.
pub open spec fn points_decode(bytes: Seq<u8>, count: nat) -> bool {
    forall|i: int| 0 <= i < count ==> (#[trigger] point_decoding(chunk(bytes, i))) is Some
}

/// The proof that `bytes` stand for, and `None` where they stand for none:
/// where their length is not that of a proof of fewer than 32 rounds, or a
/// point does not decode. The scalars are reduced.
pub open spec fn decoding(bytes: Seq<u8>) -> Option<ProofView> {
    match framed_rounds(bytes.len()) {
        None => None,
        Some(k) => if points_decode(bytes, 2 * k) {
            Some(
                ProofView {
                    l: Seq::new(k, |i: int| point_decoding(chunk(bytes, 2 * i)).unwrap()),
                    r: Seq::new(k, |i: int| point_decoding(chunk(bytes, 2 * i + 1)).unwrap()),
                    a: be_nat(chunk(bytes, 2 * k as int)) % field_order(),
                    b: be_nat(chunk(bytes, 2 * k as int + 1)) % field_order(),
                },
            )
        } else {
            None
        },
    }
}

/// A proof that can be encoded and read back: as many `l` as `r`, fewer
/// than 32 of each, every point canonical and both scalars reduced.
pub open spec fn is_valid_proof(v: ProofView) -> bool {
    &&& v.l.len() == v.r.len()
    &&& v.l.len() < 32
    &&& forall|i: int| 0 <= i < v.l.len() ==> is_canonical_point(#[trigger] v.l[i])
    &&& forall|i: int| 0 <= i < v.r.len() ==> is_canonical_point(#[trigger] v.r[i])
    &&& v.a < field_order()
    &&& v.b < field_order()
}

/// The encoded pairs take 64 bytes each, and each point stands at its place.
pub proof fn lemma_encoded_pairs(l: Seq<Seq<u8>>, r: Seq<Seq<u8>>, k: nat)
    requires
        k <= l.len(),
        k <= r.len(),
        forall|i: int| 0 <= i < k ==> (#[trigger] l[i]).len() == 32,
        forall|i: int| 0 <= i < k ==> (#[trigger] r[i]).len() == 32,
    ensures
        encoded_pairs(l, r, k).len() == 64 * k,
        forall|i: int| 0 <= i < k ==> #[trigger] chunk(encoded_pairs(l, r, k), 2 * i) == l[i],
        forall|i: int| 0 <= i < k ==> #[trigger] chunk(encoded_pairs(l, r, k), 2 * i + 1) == r[i],
    decreases k,
{
    if k > 0 {
        let head = encoded_pairs(l, r, (k - 1) as nat);
        let all = encoded_pairs(l, r, k);
        lemma_encoded_pairs(l, r, (k - 1) as nat);
        assert(l[k - 1].len() == 32 && r[k - 1].len() == 32);
        assert forall|i: int| 0 <= i < k implies #[trigger] chunk(all, 2 * i) == l[i] by {
            if i < k - 1 {
                assert(chunk(head, 2 * i) == l[i]);
                assert(chunk(all, 2 * i) =~= chunk(head, 2 * i));
            } else {
                assert(chunk(all, 2 * i) =~= l[i]);
            }
        }
        assert forall|i: int| 0 <= i < k implies #[trigger] chunk(all, 2 * i + 1) == r[i] by {
            if i < k - 1 {
                assert(chunk(head, 2 * i + 1) == r[i]);
                assert(chunk(all, 2 * i + 1) =~= chunk(head, 2 * i + 1));
            } else {
                assert(chunk(all, 2 * i + 1) =~= r[i]);
            }
        }
    }
}

/// Reading the encoding of a valid proof gives the proof back.
pub proof fn lemma_decoding_of_encoding(v: ProofView)
    requires
        is_valid_proof(v),
    ensures
        decoding(encoding(v)) == Some(v),
{
    let k = v.l.len();
    let pairs = encoded_pairs(v.l, v.r, k);
    let bytes = encoding(v);
    lemma_encoded_pairs(v.l, v.r, k);
    lemma_be_bytes_len(v.a, 32);
    lemma_be_bytes_len(v.b, 32);
    assert(bytes.len() == 64 * k + 64);
    assert(framed_rounds(bytes.len()) == Some(k));
    assert forall|i: int| 0 <= i < 2 * k implies (#[trigger] point_decoding(
        chunk(bytes, i),
    )) is Some by {
        let j = i / 2;
        if i % 2 == 0 {
            assert(i == 2 * j);
            assert(chunk(pairs, 2 * j) == v.l[j]);
            assert(chunk(bytes, i) =~= chunk(pairs, 2 * j));
            assert(is_canonical_point(v.l[j]));
        } else {
            assert(i == 2 * j + 1);
            assert(chunk(pairs, 2 * j + 1) == v.r[j]);
            assert(chunk(bytes, i) =~= chunk(pairs, 2 * j + 1));
            assert(is_canonical_point(v.r[j]));
        }
    }
    let d = decoding(bytes).unwrap();
    assert forall|i: int| 0 <= i < k implies d.l[i] == v.l[i] by {
        assert(chunk(pairs, 2 * i) == v.l[i]);
        assert(chunk(bytes, 2 * i) =~= chunk(pairs, 2 * i));
        assert(is_canonical_point(v.l[i]));
    }
    assert forall|i: int| 0 <= i < k implies d.r[i] == v.r[i] by {
        assert(chunk(pairs, 2 * i + 1) == v.r[i]);
        assert(chunk(bytes, 2 * i + 1) =~= chunk(pairs, 2 * i + 1));
        assert(is_canonical_point(v.r[i]));
    }
    assert(d.l =~= v.l);
    assert(d.r =~= v.r);
    assert(chunk(bytes, 2 * k as int) =~= be_bytes(v.a, 32));
    assert(chunk(bytes, 2 * k as int + 1) =~= be_bytes(v.b, 32));
    lemma_field_order_bounds();
    lemma_be_nat_of_be_bytes(v.a, 32);
    lemma_be_nat_of_be_bytes(v.b, 32);
    lemma_small_mod(v.a, field_order());
    lemma_small_mod(v.b, field_order());
}

/// The encoding of a proof takes 64 bytes for each round and 64 for the
/// two scalars.
pub proof fn lemma_encoding_len(v: ProofView)
    requires
        forall|i: int| 0 <= i < rounds(v) ==> (#[trigger] v.l[i]).len() == 32,
        forall|i: int| 0 <= i < rounds(v) ==> (#[trigger] v.r[i]).len() == 32,
    ensures
        encoding(v).len() == 2 * rounds(v) * 32 + 2 * 32,
{
    lemma_encoded_pairs(v.l, v.r, rounds(v));
    lemma_be_bytes_len(v.a, 32);
    lemma_be_bytes_len(v.b, 32);
}

/// An encoding of 32 rounds or more stands for no proof.
pub proof fn lemma_oversized_is_rejected(bytes: Seq<u8>)
    requires
        bytes.len() >= 64,
        ((bytes.len() - 64) / 32) / 2 >= 32,
    ensures
        decoding(bytes) is None,
{
}

} // verus!
