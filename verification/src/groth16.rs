//! Groth16 proof verification.
//!
//! A proof is three serialized points; the caller supplies the public
//! inputs as packed 32-byte field elements and the verifying key as a key
//! document.  Decoding, parsing and the shape checks are verified here;
//! the pairing identity itself is evaluated by arkworks behind trusted
//! wrappers whose results are named functions of the points and inputs
//! alone.  Points that do not lie on the curve (or in the right subgroup)
//! make the verdict `Ok(false)`: a rejection, never a panic and never an
//! error.

use vstd::prelude::*;
use crate::codec::{G1Point, G2Point, G1Val, G2Val, decode_g1_point, decode_g2_point,
    decode_field_elements, spec_decode_g1, spec_decode_g2, spec_field_chunks, fe_vals};
use crate::field::FieldElement;
use crate::vk::{VerifyingKey, VkVal, parse_verification_key, spec_parse_vk, g1_vals};

use ark_ff::PrimeField;
use ark_bn254::{Bn254, Fr};
use ark_groth16::{Groth16, prepare_verifying_key, VerifyingKey as ArkVerifyingKey,
    Proof as ArkProof};

verus! {

/// Why a proof could not be evaluated at all.  A pairing mismatch is not an
/// error: it is the legitimate verdict `Ok(false)`.
#[derive(Clone, Copy, PartialEq, Eq, Structural, Debug)]
pub enum VerificationError {
    /// A proof point had the wrong byte length.
    InvalidProof,
    /// The verifying-key document was rejected.
    InvalidVerifyingKey,
    /// The number of public inputs does not fit the key.
    InputCountMismatch,
    /// The public-input buffer is not a whole number of 32-byte elements.
    InvalidInputLength,
}

/// A Groth16 proof as submitted: the three point encodings and the packed
/// public-input bytes supplied alongside them.
#[derive(Clone, Debug)]
pub struct Proof {
    pub a: Vec<u8>,
    pub b: Vec<u8>,
    pub c: Vec<u8>,
    pub public_inputs: Vec<u8>,
}

/// A verifying key fixed for repeated verification.  The pairing-side
/// precomputation is redone inside each pairing evaluation, so this holds
/// nothing beyond the key itself.
#[derive(Clone, Debug)]
pub struct PreparedVerifyingKey {
    pub vk: VerifyingKey,
}

/// The fixed private-transaction statement as registered with the offline
/// circuit toolchain: its three public inputs are, in order, the Merkle
/// root, the nullifier hash and the commitment.  The verifier checks a
/// key's `gamma_abc_g1` length against this layout.
#[derive(Clone, Copy, PartialEq, Eq, Structural, Debug)]
pub struct BuildTransactionCircuit;

impl BuildTransactionCircuit {
    /// How many public inputs the statement takes.
    pub fn public_input_count() -> (r: usize)
        ensures
            r == 3,
    {
        3
    }
}

/// Fixes a parsed verifying key for repeated verification; a pure
/// transform with no error paths.
pub fn prepare(vk: VerifyingKey) -> (r: PreparedVerifyingKey)
    ensures
        r.vk@ == vk@,
{
    PreparedVerifyingKey { vk }
}

/// Whether a G1 encoding denotes a point on the curve and in the prime
/// subgroup.
pub uninterp spec fn g1_valid(p: G1Val) -> bool;

/// Whether a G2 encoding denotes a point on the curve and in the prime
/// subgroup.
pub uninterp spec fn g2_valid(p: G2Val) -> bool;

/// The verdict of the Groth16 pairing identity for a key, the three proof
/// points and the public-input values.
pub uninterp spec fn pairing_accepts(vk: VkVal, a: G1Val, b: G2Val, c: G1Val, inputs: Seq<nat>) -> bool;

/// All five fixed points and every `gamma_abc_g1` entry of a key are valid
/// group elements.
pub open spec fn vk_points_valid(vk: VkVal) -> bool {
    &&& g1_valid(vk.alpha)
    &&& g2_valid(vk.beta)
    &&& g2_valid(vk.gamma)
    &&& g2_valid(vk.delta)
    &&& forall|i: int| 0 <= i < vk.ic.len() ==> g1_valid(#[trigger] vk.ic[i])
}

/// Relies on ark_bn254 and ark_ec: the coordinates are reduced into the
/// base field, the affine point is built unchecked, and `is_on_curve`
/// together with the subgroup test decides membership; a function of the
/// coordinate values alone.
#[verifier::external_body]
fn g1_point_valid(p: &G1Point) -> (r: bool)
    ensures
        r == g1_valid(p@),
{
    let x = ark_bn254::Fq::from_be_bytes_mod_order(&p.x.to_be_bytes());
    let y = ark_bn254::Fq::from_be_bytes_mod_order(&p.y.to_be_bytes());
    let a = ark_bn254::G1Affine::new_unchecked(x, y);
    a.is_on_curve() && a.is_in_correct_subgroup_assuming_on_curve()
}

/// Relies on ark_bn254 and ark_ec, as the G1 test does, over the
/// quadratic-extension coordinates.
#[verifier::external_body]
fn g2_point_valid(p: &G2Point) -> (r: bool)
    ensures
        r == g2_valid(p@),
{
    let x0 = ark_bn254::Fq::from_be_bytes_mod_order(&p.x_c0.to_be_bytes());
    let x1 = ark_bn254::Fq::from_be_bytes_mod_order(&p.x_c1.to_be_bytes());
    let y0 = ark_bn254::Fq::from_be_bytes_mod_order(&p.y_c0.to_be_bytes());
    let y1 = ark_bn254::Fq::from_be_bytes_mod_order(&p.y_c1.to_be_bytes());
    let a = ark_bn254::G2Affine::new_unchecked(
        ark_bn254::Fq2::new(x0, x1),
        ark_bn254::Fq2::new(y0, y1),
    );
    a.is_on_curve() && a.is_in_correct_subgroup_assuming_on_curve()
}

/// Carries an arkworks G1 point opaquely between the conversion and the
/// pairing wrappers; the verifier refuses a declaration of the generic
/// affine type itself, so the value hides in this struct.
#[verifier::external_body]
struct ArkG1 {
    p: ark_bn254::G1Affine,
}

/// Carries an arkworks G2 point opaquely, as `ArkG1` does.
#[verifier::external_body]
struct ArkG2 {
    p: ark_bn254::G2Affine,
}

/// Carries an arkworks scalar-field element opaquely, as `ArkG1` does.
#[verifier::external_body]
struct ArkFr {
    p: ark_bn254::Fr,
}

/// Relies on ark_ff::PrimeField::from_be_bytes_mod_order and the affine
/// constructor; hands a G1 point to the pairing wrapper.
#[verifier::external_body]
fn to_g1(p: &G1Point) -> ArkG1 {
    ArkG1 { p: ark_bn254::G1Affine::new_unchecked(
        ark_bn254::Fq::from_be_bytes_mod_order(&p.x.to_be_bytes()),
        ark_bn254::Fq::from_be_bytes_mod_order(&p.y.to_be_bytes()),
    ) }
}

/// Relies on ark_ff::PrimeField::from_be_bytes_mod_order and the affine
/// constructor; hands a G2 point to the pairing wrapper.
#[verifier::external_body]
fn to_g2(p: &G2Point) -> ArkG2 {
    let x0 = ark_bn254::Fq::from_be_bytes_mod_order(&p.x_c0.to_be_bytes());
    let x1 = ark_bn254::Fq::from_be_bytes_mod_order(&p.x_c1.to_be_bytes());
    let y0 = ark_bn254::Fq::from_be_bytes_mod_order(&p.y_c0.to_be_bytes());
    let y1 = ark_bn254::Fq::from_be_bytes_mod_order(&p.y_c1.to_be_bytes());
    ArkG2 { p: ark_bn254::G2Affine::new_unchecked(ark_bn254::Fq2::new(x0, x1), ark_bn254::Fq2::new(y0, y1)) }
}

/// Relies on ark_ff::PrimeField::from_be_bytes_mod_order: reduces a
/// 32-byte value into the scalar field for the pairing wrapper.
#[verifier::external_body]
fn to_fr(f: &FieldElement) -> ArkFr {
    ArkFr { p: ark_bn254::Fr::from_be_bytes_mod_order(&f.to_be_bytes()) }
}

/// Relies on ark_groth16's verifier: with a prepared key it evaluates
/// `e(A, B) == e(alpha, beta) * e(vk_x, gamma) * e(C, delta)` with
/// `vk_x = gamma_abc_g1[0] + sum_i inputs[i] * gamma_abc_g1[i + 1]`, a
/// deterministic function of the key, the proof points and the inputs.
/// Its input preparation pairs the inputs with `gamma_abc_g1[1..]`, which
/// the length precondition makes exact, and its final exponentiation
/// unwraps an inverse that exists whenever the Miller value is nonzero,
/// which the validity preconditions guarantee.
#[verifier::external_body]
fn pairing_check(
    vk: &VerifyingKey,
    a: &G1Point,
    b: &G2Point,
    c: &G1Point,
    inputs: &Vec<FieldElement>,
) -> (r: bool)
    requires
        inputs@.len() + 1 == vk.gamma_abc_g1@.len(),
        vk_points_valid(vk@),
        g1_valid(a@),
        g2_valid(b@),
        g1_valid(c@),
    ensures
        r == pairing_accepts(vk@, a@, b@, c@, fe_vals(inputs@)),
{
    let avk = ArkVerifyingKey::<Bn254> {
        alpha_g1: to_g1(&vk.alpha_g1).p,
        beta_g2: to_g2(&vk.beta_g2).p,
        gamma_g2: to_g2(&vk.gamma_g2).p,
        delta_g2: to_g2(&vk.delta_g2).p,
        gamma_abc_g1: vk.gamma_abc_g1.iter().map(|q| to_g1(q).p).collect(),
    };
    let prf = ArkProof::<Bn254> { a: to_g1(a).p, b: to_g2(b).p, c: to_g1(c).p };
    let ins: Vec<Fr> = inputs.iter().map(|f| to_fr(f).p).collect();
    let pvk = prepare_verifying_key(&avk);
    matches!(Groth16::<Bn254>::verify_proof(&pvk, &prf, &ins), Ok(true))
}

/// Checks every point of a key for group membership.
fn vk_points_check(vk: &VerifyingKey) -> (r: bool)
    ensures
        r == vk_points_valid(vk@),
{
    if !g1_point_valid(&vk.alpha_g1) {
        return false;
    }
    if !g2_point_valid(&vk.beta_g2) {
        return false;
    }
    if !g2_point_valid(&vk.gamma_g2) {
        return false;
    }
    if !g2_point_valid(&vk.delta_g2) {
        return false;
    }
    let n: usize = vk.gamma_abc_g1.len();
    let mut i: usize = 0;
    while i < n
        invariant
            n == vk.gamma_abc_g1@.len(),
            i <= n,
            g1_valid(vk@.alpha),
            g2_valid(vk@.beta),
            g2_valid(vk@.gamma),
            g2_valid(vk@.delta),
            forall|j: int| 0 <= j < i ==> g1_valid(#[trigger] vk@.ic[j]),
        decreases n - i,
    {
        if !g1_point_valid(&vk.gamma_abc_g1[i]) {
            proof {
                assert(vk@.ic[i as int] == vk.gamma_abc_g1@[i as int]@);
            }
            return false;
        }
        proof {
            assert(vk@.ic[i as int] == vk.gamma_abc_g1@[i as int]@);
        }
        i = i + 1;
    }
    true
}

/// What verification of decoded points against a parsed key yields: first
/// the input count is held against the key, the count read as the number
/// of whole 32-byte elements in the buffer; then the buffer must be a
/// whole number of elements; past both, the verdict is `true` exactly
/// when every point is a valid group element and the pairing identity
/// holds.
pub open spec fn spec_verify_points(
    vk: VkVal,
    pa: G1Val,
    pb: G2Val,
    pc: G1Val,
    ins: Seq<u8>,
) -> Result<bool, VerificationError> {
    if vk.ic.len() != ins.len() / 32 + 1 {
        Err(VerificationError::InputCountMismatch)
    } else if ins.len() % 32 != 0 {
        Err(VerificationError::InvalidInputLength)
    } else {
        Ok(
            vk_points_valid(vk) && g1_valid(pa) && g2_valid(pb) && g1_valid(pc) && pairing_accepts(
                vk,
                pa,
                pb,
                pc,
                spec_field_chunks(ins),
            ),
        )
    }
}

/// Evaluates decoded proof points against a prepared key.
pub fn verify(
    prepared: &PreparedVerifyingKey,
    pa: &G1Point,
    pb: &G2Point,
    pc: &G1Point,
    public_inputs: &[u8],
) -> (r: Result<bool, VerificationError>)
    ensures
        r == spec_verify_points(prepared.vk@, pa@, pb@, pc@, public_inputs@),
{
    let vk = &prepared.vk;
    proof {
        assert(g1_vals(vk.gamma_abc_g1@).len() == vk.gamma_abc_g1@.len());
    }
    let ic_len: usize = vk.gamma_abc_g1.len();
    let count: usize = public_inputs.len() / 32;
    if ic_len == 0 || count != ic_len - 1 {
        return Err(VerificationError::InputCountMismatch);
    }
    let inputs = match decode_field_elements(public_inputs) {
        Err(_) => {
            return Err(VerificationError::InvalidInputLength);
        },
        Ok(v) => v,
    };
    proof {
        assert(fe_vals(inputs@).len() == inputs@.len());
        assert(spec_field_chunks(public_inputs@).len() == public_inputs@.len() / 32);
        assert(vk@.ic.len() == public_inputs@.len() / 32 + 1);
    }
    if !vk_points_check(vk) {
        return Ok(false);
    }
    if !g1_point_valid(pa) {
        return Ok(false);
    }
    if !g2_point_valid(pb) {
        return Ok(false);
    }
    if !g1_point_valid(pc) {
        return Ok(false);
    }
    proof {
        assert(fe_vals(inputs@) =~= spec_field_chunks(public_inputs@));
    }
    Ok(pairing_check(vk, pa, pb, pc, &inputs))
}

/// What Groth16 verification from raw bytes yields: point decoding and key
/// parsing errors first, then the shape checks, then the verdict.
pub open spec fn spec_verify_groth16(
    a: Seq<u8>,
    b: Seq<u8>,
    c: Seq<u8>,
    ins: Seq<u8>,
    vk_doc: Seq<u8>,
) -> Result<bool, VerificationError> {
    match spec_decode_g1(a) {
        None => Err(VerificationError::InvalidProof),
        Some(pa) => match spec_decode_g2(b) {
            None => Err(VerificationError::InvalidProof),
            Some(pb) => match spec_decode_g1(c) {
                None => Err(VerificationError::InvalidProof),
                Some(pc) => match spec_parse_vk(vk_doc) {
                    Err(_) => Err(VerificationError::InvalidVerifyingKey),
                    Ok(vk) => spec_verify_points(vk, pa, pb, pc, ins),
                },
            },
        },
    }
}

/// Verifies a Groth16 proof given as raw bytes: the three point
/// encodings, the packed public inputs, and the verifying-key document.
pub fn verify_groth16(
    pi_a: &[u8],
    pi_b: &[u8],
    pi_c: &[u8],
    public_inputs: &[u8],
    vk_bytes: &[u8],
) -> (r: Result<bool, VerificationError>)
    ensures
        r == spec_verify_groth16(pi_a@, pi_b@, pi_c@, public_inputs@, vk_bytes@),
{
    let pa = match decode_g1_point(pi_a) {
        Err(_) => {
            return Err(VerificationError::InvalidProof);
        },
        Ok(p) => p,
    };
    let pb = match decode_g2_point(pi_b) {
        Err(_) => {
            return Err(VerificationError::InvalidProof);
        },
        Ok(p) => p,
    };
    let pc = match decode_g1_point(pi_c) {
        Err(_) => {
            return Err(VerificationError::InvalidProof);
        },
        Ok(p) => p,
    };
    let vk = match parse_verification_key(vk_bytes) {
        Err(_) => {
            return Err(VerificationError::InvalidVerifyingKey);
        },
        Ok(k) => k,
    };
    let prepared = prepare(vk);
    verify(&prepared, &pa, &pb, &pc, public_inputs)
}

/// What boundary verification yields: the three public values are packed,
/// root first, then nullifier hash, then commitment, and checked as the
/// proof's public inputs.
pub open spec fn spec_verify_proof(
    a: Seq<u8>,
    b: Seq<u8>,
    c: Seq<u8>,
    root: Seq<u8>,
    nullifier_hash: Seq<u8>,
    commitment: Seq<u8>,
    vk_doc: Seq<u8>,
) -> Result<bool, VerificationError> {
    spec_verify_groth16(a, b, c, root + nullifier_hash + commitment, vk_doc)
}

/// Verifies a submitted proof against the three public values and a
/// verifying-key document.
pub fn verify_proof(
    proof: &Proof,
    root: &[u8],
    nullifier_hash: &[u8],
    commitment: &[u8],
    vk_bytes: &[u8],
) -> (r: Result<bool, VerificationError>)
    ensures
        r == spec_verify_proof(
            proof.a@,
            proof.b@,
            proof.c@,
            root@,
            nullifier_hash@,
            commitment@,
            vk_bytes@,
        ),
{
    let mut public_inputs: Vec<u8> = Vec::new();
    crate::hashing::append_bytes(&mut public_inputs, root);
    crate::hashing::append_bytes(&mut public_inputs, nullifier_hash);
    crate::hashing::append_bytes(&mut public_inputs, commitment);
    proof {
        assert(public_inputs@ =~= root@ + nullifier_hash@ + commitment@);
    }
    verify_groth16(
        proof.a.as_slice(),
        proof.b.as_slice(),
        proof.c.as_slice(),
        public_inputs.as_slice(),
        vk_bytes,
    )
}

} // verus!
