//! Domain hash combinators.
//!
//! Every hash in the library goes through one SHA-256 call on a
//! concatenation the callers assemble themselves: commitments bind an
//! amount, a secret and a nullifier; nullifier hashes bind a nullifier and a
//! secret; the Merkle accumulator combines two child nodes.  The digest
//! itself is named by an uninterpreted spec function, so every contract is a
//! function of the input bytes alone.

use vstd::prelude::*;
use vstd::arithmetic::power2::pow2;
use vstd::arithmetic::div_mod::lemma_div_denominator;
use crate::field::{FieldElement, be_nat, nat_to_be};

use sha2::Digest;

verus! {

/// The 32-byte SHA-256 digest of a byte sequence.
pub uninterp spec fn sha256_of(s: Seq<u8>) -> Seq<u8>;

/// Relies on sha2::Sha256 (RustCrypto): the digest is exactly 32 bytes and
/// depends on the input bytes alone.
#[verifier::external_body]
fn sha256(input: &[u8]) -> (r: Vec<u8>)
    ensures
        r@ == sha256_of(input@),
        r@.len() == 32,
{
    sha2::Sha256::digest(input).to_vec()
}

/// Appends a byte slice to a vector.
pub fn append_bytes(out: &mut Vec<u8>, s: &[u8])
    ensures
        final(out)@ == old(out)@ + s@,
{
    let n: usize = s.len();
    let mut i: usize = 0;
    while i < n
        invariant
            n == s@.len(),
            i <= n,
            out@ == old(out)@ + s@.subrange(0, i as int),
        decreases n - i,
    {
        proof {
            assert(s@.subrange(0, i + 1) =~= s@.subrange(0, i as int).push(s@[i as int]));
        }
        out.push(s[i]);
        i = i + 1;
    }
    proof {
        assert(s@.subrange(0, n as int) =~= s@);
    }
}

/// The fixed-width little-endian encoding of an amount.
pub open spec fn u64_le_bytes(x: u64) -> Seq<u8> {
    Seq::new(8, |i: int| (((x as nat) / pow2((8 * i) as nat)) % 256) as u8)
}

/// Writes the eight little-endian bytes of `x`.
pub fn u64_to_le_bytes(x: u64) -> (r: Vec<u8>)
    ensures
        r@ == u64_le_bytes(x),
        r@.len() == 8,
{
    let v0: u64 = x;
    let v1: u64 = v0 / 256;
    let v2: u64 = v1 / 256;
    let v3: u64 = v2 / 256;
    let v4: u64 = v3 / 256;
    let v5: u64 = v4 / 256;
    let v6: u64 = v5 / 256;
    let v7: u64 = v6 / 256;
    let mut out: Vec<u8> = Vec::new();
    out.push((v0 % 256) as u8);
    out.push((v1 % 256) as u8);
    out.push((v2 % 256) as u8);
    out.push((v3 % 256) as u8);
    out.push((v4 % 256) as u8);
    out.push((v5 % 256) as u8);
    out.push((v6 % 256) as u8);
    out.push((v7 % 256) as u8);
    proof {
        vstd::arithmetic::power2::lemma2_to64();
        vstd::arithmetic::power2::lemma2_to64_rest();
        vstd::arithmetic::div_mod::lemma_div_basics(x as int);
        assert((x as nat) / pow2(0) == x as nat);
        lemma_div_denominator(x as int, 256, 256);
        lemma_div_denominator(x as int, 65536, 256);
        lemma_div_denominator(x as int, 16777216, 256);
        lemma_div_denominator(x as int, 4294967296, 256);
        lemma_div_denominator(x as int, 1099511627776, 256);
        lemma_div_denominator(x as int, 281474976710656, 256);
        assert(v1 == (x as nat) / pow2(8));
        assert(v2 == (x as nat) / pow2(16));
        assert(v3 == (x as nat) / pow2(24));
        assert(v4 == (x as nat) / pow2(32));
        assert(v5 == (x as nat) / pow2(40));
        assert(v6 == (x as nat) / pow2(48));
        assert(v7 == (x as nat) / pow2(56));
        assert(out@ =~= u64_le_bytes(x));
    }
    out
}

/// The commitment preimage: amount, then secret, then nullifier.
pub open spec fn commitment_preimage(amount: u64, secret: Seq<u8>, nullifier: Seq<u8>) -> Seq<u8> {
    u64_le_bytes(amount) + secret + nullifier
}

/// A commitment binds an amount, a secret and a nullifier: the SHA-256
/// digest of their concatenation, the amount in fixed eight-byte form.  The
/// result is a function of the three inputs alone, so repeated calls agree.
pub fn compute_commitment(amount: u64, secret: &[u8], nullifier: &[u8]) -> (r: Vec<u8>)
    ensures
        r@ == sha256_of(commitment_preimage(amount, secret@, nullifier@)),
        r@.len() == 32,
{
    let mut buf = u64_to_le_bytes(amount);
    append_bytes(&mut buf, secret);
    append_bytes(&mut buf, nullifier);
    sha256(buf.as_slice())
}

/// A nullifier hash binds a nullifier and a secret: the SHA-256 digest of
/// their concatenation, a function of the two inputs alone.
pub fn compute_nullifier_hash(nullifier: &[u8], secret: &[u8]) -> (r: Vec<u8>)
    ensures
        r@ == sha256_of(nullifier@ + secret@),
        r@.len() == 32,
{
    let mut buf: Vec<u8> = Vec::new();
    append_bytes(&mut buf, nullifier);
    append_bytes(&mut buf, secret);
    proof {
        assert(Seq::<u8>::empty() + nullifier@ + secret@ =~= nullifier@ + secret@);
    }
    sha256(buf.as_slice())
}

/// Commitments are deterministic: any two results obtained for the same
/// amount, secret and nullifier are equal, because each is pinned to the
/// digest of the same preimage.
pub proof fn lemma_commitment_deterministic(
    r1: Seq<u8>,
    r2: Seq<u8>,
    amount: u64,
    secret: Seq<u8>,
    nullifier: Seq<u8>,
)
    requires
        r1 == sha256_of(commitment_preimage(amount, secret, nullifier)),
        r2 == sha256_of(commitment_preimage(amount, secret, nullifier)),
    ensures
        r1 == r2,
{
}

/// The value of one interior tree node: the digest of the two children's
/// 32-byte encodings, read back as a field-element value.
pub open spec fn hash_pair_val(a: nat, b: nat) -> nat {
    be_nat(sha256_of(nat_to_be(a, 32) + nat_to_be(b, 32)))
}

/// Combines two child nodes into their parent.
pub fn hash_pair(l: &FieldElement, r: &FieldElement) -> (h: FieldElement)
    ensures
        h@ == hash_pair_val(l@, r@),
{
    let mut buf = l.to_be_bytes();
    let mut rb = r.to_be_bytes();
    buf.append(&mut rb);
    let d = sha256(buf.as_slice());
    FieldElement::from_be_bytes(d.as_slice())
}

} // verus!
