//! Hash-based commitments for the MAC check's coin toss and sigma
//! opening: committing broadcasts `H(v ‖ r)`, and opening recomputes
//! the hash and compares.

use vstd::prelude::*;

use crate::bytes::{append_bytes, bytes_eq};
use crate::mpc::PlayerState;
use crate::protocol::{Facilitator, OnlineMessage};

verus! {

/// The SHA-256 digest of a byte string; a function of the bytes alone.
pub uninterp spec fn sha256_of(data: Seq<u8>) -> Seq<u8>;

/// Relies on the `sha2` crate's SHA-256: a 32-byte digest determined by
/// the input bytes.
#[verifier::external_body]
pub fn sha256(data: &Vec<u8>) -> (r: Vec<u8>)
    ensures
        r@ == sha256_of(data@),
        r@.len() == 32,
{
    let mut hasher = <sha2::Sha256 as sha2::Digest>::new();
    sha2::Digest::update(&mut hasher, data.as_slice());
    sha2::Digest::finalize(hasher).to_vec()
}

/// The commitment to value `v` under randomness `r`: `H(v ‖ r)`.
pub fn commitment_of(v: &Vec<u8>, r: &Vec<u8>) -> (c: Vec<u8>)
    ensures
        c@ == sha256_of(v@ + r@),
        c@.len() == 32,
{
    let mut o: Vec<u8> = Vec::new();
    append_bytes(&mut o, v);
    append_bytes(&mut o, r);
    proof {
        assert(o@ =~= v@ + r@);
    }
    sha256(&o)
}

/// Commit to `v` under randomness `r`: broadcast `H(v ‖ r)` to every
/// player.
pub fn commit<F: Facilitator>(v: Vec<u8>, r: Vec<u8>, state: &PlayerState<F>) {
    let c = commitment_of(&v, &r);
    state.facilitator.broadcast(&OnlineMessage::ShareCommitment(c));
}

/// Open a commitment: accept the opening `o` exactly when its hash is
/// the committed digest.
pub fn open(c: Vec<u8>, o: Vec<u8>) -> (res: Result<Vec<u8>, &'static str>)
    ensures
        match res {
            Ok(out) => sha256_of(o@) == c@ && out@ == o@,
            Err(_) => sha256_of(o@) != c@,
        },
{
    let h = sha256(&o);
    if !bytes_eq(&h, &c) {
        return Err("Hash of o does not equal c");
    }
    Ok(o)
}

} // verus!
