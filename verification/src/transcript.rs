//! The Fiat-Shamir transcript of the inner-product argument.
//!
//! The transcript itself is `merlin::Transcript`. Its state is named here as
//! a byte string, and what absorbing and squeezing do to that state is named
//! as functions of the state, the label and the data. The protocol's own
//! operations are built from those two and say what they do to the state.

use crate::errors::ProofError;
use crate::field::{be_bytes, be_nat, field_order, lemma_be_bytes_len};
use crate::point::{is_identity_encoding, Point};
use crate::scalar::Scalar;
use merlin::Transcript;
use vstd::prelude::*;

verus! {

/// `merlin::Transcript`, taken as it is: what it holds is known here only by
/// the name [`transcript_state`].
#[verifier::external_type_specification]
#[verifier::external_body]
pub struct ExTranscript(Transcript);

/// The state that a transcript holds.
pub uninterp spec fn transcript_state(t: Transcript) -> Seq<u8>;

/// The state after `Transcript::append_message` has absorbed `message` under
/// `label` into `state`.
pub uninterp spec fn absorbed(state: Seq<u8>, label: Seq<char>, message: Seq<u8>) -> Seq<u8>;

/// The `len` bytes that `Transcript::challenge_bytes` gives under `label` in
/// `state`, and the state after it.
pub uninterp spec fn squeezed(state: Seq<u8>, label: Seq<char>, len: nat) -> (Seq<u8>, Seq<u8>);

/// `Transcript::append_message`, which takes a message of at most `u32::MAX`
/// bytes. The new state is a function of the old one, the label and the
/// message.
#[verifier::external_body]
fn absorb(t: &mut Transcript, label: &'static str, message: &[u8])
    requires
        message@.len() <= u32::MAX,
    ensures
        transcript_state(*final(t)) == absorbed(transcript_state(*old(t)), label@, message@),
{
    t.append_message(label.as_bytes(), message)
}

/// `Transcript::challenge_bytes` on a buffer of `len` bytes, at most
/// `u32::MAX`. The bytes and the new state are a function of the old state,
/// the label and the length.
#[verifier::external_body]
fn squeeze(t: &mut Transcript, label: &'static str, len: usize) -> (r: Vec<u8>)
    requires
        len <= u32::MAX,
    ensures
        r@.len() == len,
        (r@, transcript_state(*final(t))) == squeezed(
            transcript_state(*old(t)),
            label@,
            len as nat,
        ),
{
    let mut buf = vec![0u8; len];
    t.challenge_bytes(label.as_bytes(), &mut buf);
    buf
}

/// The label of this protocol: the bytes of `ipp v1`.
pub open spec fn protocol_label() -> Seq<u8> {
    seq![105u8, 112u8, 112u8, 32u8, 118u8, 49u8]
}

/// The state after the domain separator for vectors of length `n`.
pub open spec fn domain_separated(state: Seq<u8>, n: u64) -> Seq<u8> {
    absorbed(absorbed(state, "dom-sep"@, protocol_label()), "n"@, be_bytes(n as nat, 8))
}

/// The state after a point has been absorbed under `label`.
pub open spec fn point_appended(state: Seq<u8>, label: Seq<char>, point: Seq<u8>) -> Seq<u8> {
    absorbed(state, label, point)
}

/// The challenge scalar squeezed under `label`: 64 bytes, read as a
/// big-endian number and reduced.
pub open spec fn challenge_value(state: Seq<u8>, label: Seq<char>) -> nat {
    be_nat(squeezed(state, label, 64).0) % field_order()
}

/// The state after a challenge scalar has been squeezed under `label`.
pub open spec fn challenge_state(state: Seq<u8>, label: Seq<char>) -> Seq<u8> {
    squeezed(state, label, 64).1
}

/// The eight bytes of `n`, most significant first.
pub fn u64_be_bytes(n: u64) -> (r: Vec<u8>)
    ensures
        r@ == be_bytes(n as nat, 8),
{
    let b7: u8 = (n % 256) as u8;
    let n1: u64 = n / 256;
    let b6: u8 = (n1 % 256) as u8;
    let n2: u64 = n1 / 256;
    let b5: u8 = (n2 % 256) as u8;
    let n3: u64 = n2 / 256;
    let b4: u8 = (n3 % 256) as u8;
    let n4: u64 = n3 / 256;
    let b3: u8 = (n4 % 256) as u8;
    let n5: u64 = n4 / 256;
    let b2: u8 = (n5 % 256) as u8;
    let n6: u64 = n5 / 256;
    let b1: u8 = (n6 % 256) as u8;
    let n7: u64 = n6 / 256;
    let b0: u8 = (n7 % 256) as u8;
    let out = vec![b0, b1, b2, b3, b4, b5, b6, b7];
    proof {
        reveal_with_fuel(be_bytes, 9);
        assert(out@ =~= be_bytes(n as nat, 8));
    }
    out
}

/// Absorbs the domain separator of the inner-product argument: the protocol
/// label, then `n` as eight big-endian bytes.
pub fn innerproduct_domain_sep(t: &mut Transcript, n: u64)
    ensures
        transcript_state(*final(t)) == domain_separated(transcript_state(*old(t)), n),
{
    let label: [u8; 6] = [105u8, 112u8, 112u8, 32u8, 118u8, 49u8];
    assert(label@ =~= protocol_label());
    absorb(t, "dom-sep", label.as_slice());
    let digits = u64_be_bytes(n);
    proof {
        lemma_be_bytes_len(n as nat, 8);
    }
    absorb(t, "n", digits.as_slice());
}

/// Absorbs the encoding of a point under `label`.
pub fn append_point(t: &mut Transcript, label: &'static str, point: &Point)
    ensures
        transcript_state(*final(t)) == point_appended(transcript_state(*old(t)), label@, point@),
{
    let bytes = point.to_bytes();
    absorb(t, label, bytes.as_slice());
}

/// Absorbs the encoding of a point under `label`, unless the point is the
/// identity of the group: then the transcript is left as it is and the
/// point is refused.
pub fn validate_and_append_point(t: &mut Transcript, label: &'static str, point: &Point) -> (r:
    Result<(), ProofError>)
    requires
        point.wf(),
    ensures
        is_identity_encoding(point@) ==> r == Err::<(), ProofError>(ProofError::VerificationError)
            && transcript_state(*final(t)) == transcript_state(*old(t)),
        !is_identity_encoding(point@) ==> r is Ok && transcript_state(*final(t)) == point_appended(
            transcript_state(*old(t)),
            label@,
            point@,
        ),
{
    if point.is_identity() {
        Err(ProofError::VerificationError)
    } else {
        append_point(t, label, point);
        Ok(())
    }
}

/// Squeezes a challenge scalar under `label`.
pub fn challenge_scalar(t: &mut Transcript, label: &'static str) -> (r: Scalar)
    ensures
        r.wf(),
        r@ == challenge_value(transcript_state(*old(t)), label@),
        transcript_state(*final(t)) == challenge_state(transcript_state(*old(t)), label@),
{
    let buf = squeeze(t, label, 64);
    Scalar::from_be_bytes_mod_order(buf.as_slice())
}

} // verus!
