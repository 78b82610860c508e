//! The Fiat-Shamir transcript: commitments are absorbed as their encodings,
//! and each challenge is read from a Keccak-256 digest of the state.
use crate::field::{Fe, field_modulus, limbs_value};
use crate::group::G1;
use tiny_keccak::{Hasher, Keccak};
use vstd::prelude::*;

verus! {

/// The Keccak-256 digest of `data`.
pub uninterp spec fn keccak256_of(data: Seq<u8>) -> Seq<u8>;

/// Relies on tiny-keccak's `Keccak::v256`: a 32-byte digest of the input.
#[verifier::external_body]
fn keccak256(data: &Vec<u8>) -> (r: Vec<u8>)
    ensures
        r@ == keccak256_of(data@),
        r@.len() == 32,
{
    let mut k = Keccak::v256();
    k.update(data);
    let mut out = [0u8; 32];
    k.finalize(&mut out);
    out.to_vec()
}

/// Eight bytes from offset `k`, little-endian.
pub open spec fn le_limb(d: Seq<u8>, k: int) -> int {
    d[k] + 256 * (d[k + 1] + 256 * (d[k + 2] + 256 * (d[k + 3] + 256 * (d[k + 4] + 256 * (d[k
        + 5] + 256 * (d[k + 6] + 256 * d[k + 7]))))))
}

/// The challenge held by a 32-byte digest: the little-endian integer with
/// its two most significant bits cleared, which is always below the order.
pub open spec fn digest_scalar(d: Seq<u8>) -> int {
    let top = d.update(31, d[31] & 0x3f);
    limbs_value(
        le_limb(top, 0) as u64,
        le_limb(top, 8) as u64,
        le_limb(top, 16) as u64,
        le_limb(top, 24) as u64,
    )
}

/// The challenge that a transcript in state `s` gives.
pub open spec fn challenge_of(s: Seq<u8>) -> int {
    digest_scalar(keccak256_of(s))
}

/// The state of a transcript after it gave a challenge from state `s`.
pub open spec fn state_after_challenge(s: Seq<u8>) -> Seq<u8> {
    keccak256_of(s)
}

pub struct Transcript {
    state: Vec<u8>,
}

fn read_limb(d: &Vec<u8>, k: usize) -> (r: u64)
    requires
        k + 8 <= d.len(),
    ensures
        r == le_limb(d@, k as int),
{
    d[k] as u64 + 256 * (d[k + 1] as u64 + 256 * (d[k + 2] as u64 + 256 * (d[k + 3] as u64 + 256
        * (d[k + 4] as u64 + 256 * (d[k + 5] as u64 + 256 * (d[k + 6] as u64 + 256 * d[k
        + 7] as u64))))))
}

impl Transcript {
    pub closed spec fn view(&self) -> Seq<u8> {
        self.state@
    }

    /// A transcript with empty state.
    pub fn new() -> (r: Transcript)
        ensures
            r@ == Seq::<u8>::empty(),
    {
        Transcript { state: Vec::new() }
    }

    /// Absorbs the encoding of a commitment.
    pub fn commit_point(&mut self, p: &G1)
        ensures
            final(self)@ == old(self)@ + p.bytes@,
    {
        let mut j: usize = 0;
        let ghost s0 = self.state@;
        while j < p.bytes.len()
            invariant
                j <= p.bytes.len(),
                self.state@ == s0 + p.bytes@.take(j as int),
            decreases p.bytes.len() - j,
        {
            self.state.push(p.bytes[j]);
            proof {
                assert(p.bytes@.take(j + 1) =~= p.bytes@.take(j as int).push(p.bytes@[j as int]));
            }
            j = j + 1;
        }
        proof {
            assert(p.bytes@.take(p.bytes.len() as int) =~= p.bytes@);
        }
    }

    /// Gives the next challenge and moves the state on.
    pub fn get_challenge_scalar(&mut self) -> (r: Fe)
        ensures
            r.wf(),
            r.val() == challenge_of(old(self)@),
            final(self)@ == state_after_challenge(old(self)@),
    {
        let mut d = keccak256(&self.state);
        let ghost d0 = d@;
        let last = d[31];
        let top = last & 0x3f;
        assert(top <= 0x3f) by (bit_vector)
            requires top == last & 0x3f;
        d.set(31, top);
        proof {
            assert(d@ == d0.update(31, d0[31] & 0x3f));
        }
        let l0 = read_limb(&d, 0);
        let l1 = read_limb(&d, 8);
        let l2 = read_limb(&d, 16);
        let l3 = read_limb(&d, 24);
        proof {
            crate::field::lemma_top_limb_below(l0, l1, l2, l3);
        }
        self.state = keccak256(&self.state);
        Fe { l0, l1, l2, l3 }
    }
}

} // verus!
