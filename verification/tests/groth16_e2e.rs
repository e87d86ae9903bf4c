use ark_bn254::{Bn254, Fr};
use ark_ff::{BigInteger, One, PrimeField};
use ark_groth16::Groth16;
use ark_relations::gr1cs::{ConstraintSynthesizer, ConstraintSystemRef, SynthesisError};
use ark_relations::gr1cs::LinearCombination;

use zksnark_core::groth16::{
    verify_groth16, verify_proof, BuildTransactionCircuit, Proof, VerificationError,
};
use zksnark_core::vk::parse_verification_key;

/// A statement with three public inputs: `c1 = a * b`, `c2 = a * a`,
/// `c3 = b * b` for private `a`, `b`.
struct ThreeProductCircuit {
    a: Option<Fr>,
    b: Option<Fr>,
}

impl ConstraintSynthesizer<Fr> for ThreeProductCircuit {
    fn generate_constraints(self, cs: ConstraintSystemRef<Fr>) -> Result<(), SynthesisError> {
        let a = cs.new_witness_variable(|| self.a.ok_or(SynthesisError::AssignmentMissing))?;
        let b = cs.new_witness_variable(|| self.b.ok_or(SynthesisError::AssignmentMissing))?;
        let c1 = cs.new_input_variable(|| {
            let a = self.a.ok_or(SynthesisError::AssignmentMissing)?;
            let b = self.b.ok_or(SynthesisError::AssignmentMissing)?;
            Ok(a * b)
        })?;
        let c2 = cs.new_input_variable(|| {
            let a = self.a.ok_or(SynthesisError::AssignmentMissing)?;
            Ok(a * a)
        })?;
        let c3 = cs.new_input_variable(|| {
            let b = self.b.ok_or(SynthesisError::AssignmentMissing)?;
            Ok(b * b)
        })?;
        let one = Fr::one();
        cs.enforce_r1cs_constraint(
            || LinearCombination(vec![(one, a)]),
            || LinearCombination(vec![(one, b)]),
            || LinearCombination(vec![(one, c1)]),
        )?;
        cs.enforce_r1cs_constraint(
            || LinearCombination(vec![(one, a)]),
            || LinearCombination(vec![(one, a)]),
            || LinearCombination(vec![(one, c2)]),
        )?;
        cs.enforce_r1cs_constraint(
            || LinearCombination(vec![(one, b)]),
            || LinearCombination(vec![(one, b)]),
            || LinearCombination(vec![(one, c3)]),
        )?;
        Ok(())
    }
}

fn fq_bytes(x: &ark_bn254::Fq) -> Vec<u8> {
    x.into_bigint().to_bytes_be()
}

fn fr_bytes(x: &Fr) -> Vec<u8> {
    x.into_bigint().to_bytes_be()
}

fn g1_bytes(p: &ark_bn254::G1Affine) -> Vec<u8> {
    let mut out = fq_bytes(&p.x);
    out.extend_from_slice(&fq_bytes(&p.y));
    out
}

fn g2_bytes(p: &ark_bn254::G2Affine) -> Vec<u8> {
    let mut out = fq_bytes(&p.x.c0);
    out.extend_from_slice(&fq_bytes(&p.x.c1));
    out.extend_from_slice(&fq_bytes(&p.y.c0));
    out.extend_from_slice(&fq_bytes(&p.y.c1));
    out
}

fn hex_of(bytes: &[u8]) -> String {
    let mut s = String::new();
    for b in bytes {
        s.push_str(&format!("{:02x}", b));
    }
    s
}

/// Runs the trusted setup for the statement and produces a proof for
/// a = 3, b = 5, returning the key document, the proof and the three
/// public-input byte strings.
fn setup_and_prove() -> (String, Proof, Vec<u8>, Vec<u8>, Vec<u8>) {
    let mut rng = ark_std::test_rng();
    let pk = Groth16::<Bn254>::generate_random_parameters_with_reduction(
        ThreeProductCircuit { a: None, b: None },
        &mut rng,
    )
    .unwrap();
    let vk = &pk.vk;

    let a = Fr::from(3u64);
    let b = Fr::from(5u64);
    let proof = Groth16::<Bn254>::create_random_proof_with_reduction(
        ThreeProductCircuit { a: Some(a), b: Some(b) },
        &pk,
        &mut rng,
    )
    .unwrap();

    let ic_hex: Vec<String> =
        vk.gamma_abc_g1.iter().map(|p| format!("\"{}\"", hex_of(&g1_bytes(p)))).collect();
    let doc = format!(
        "{{\"alpha\": [\"{}\"], \"beta\": [\"{}\"], \"gamma\": [\"{}\"], \"delta\": [\"{}\"], \"IC\": [{}]}}",
        hex_of(&g1_bytes(&vk.alpha_g1)),
        hex_of(&g2_bytes(&vk.beta_g2)),
        hex_of(&g2_bytes(&vk.gamma_g2)),
        hex_of(&g2_bytes(&vk.delta_g2)),
        ic_hex.join(", "),
    );

    let submitted = Proof {
        a: g1_bytes(&proof.a),
        b: g2_bytes(&proof.b),
        c: g1_bytes(&proof.c),
        public_inputs: Vec::new(),
    };
    (doc, submitted, fr_bytes(&(a * b)), fr_bytes(&(a * a)), fr_bytes(&(b * b)))
}

#[test]
fn key_matches_the_statement_layout() {
    let (doc, _, _, _, _) = setup_and_prove();
    let vk = parse_verification_key(doc.as_bytes()).unwrap();
    assert_eq!(vk.gamma_abc_g1.len(), BuildTransactionCircuit::public_input_count() + 1);
}

#[test]
fn known_good_proof_verifies() {
    let (doc, proof, c1, c2, c3) = setup_and_prove();
    let verdict = verify_proof(&proof, &c1, &c2, &c3, doc.as_bytes());
    assert_eq!(verdict, Ok(true));
}

#[test]
fn any_flipped_bit_in_a_rejects_without_error() {
    let (doc, proof, c1, c2, c3) = setup_and_prove();
    for byte in [0usize, 17, 31, 40, 63] {
        for bit in [0u8, 3, 7] {
            let mut tampered = proof.clone();
            tampered.a[byte] ^= 1 << bit;
            let verdict = verify_proof(&tampered, &c1, &c2, &c3, doc.as_bytes());
            assert_eq!(verdict, Ok(false), "byte {} bit {}", byte, bit);
        }
    }
}

#[test]
fn wrong_public_inputs_reject_without_error() {
    let (doc, proof, c1, c2, c3) = setup_and_prove();
    // c1 and c2 swapped: evaluation succeeds, the identity fails
    assert_eq!(verify_proof(&proof, &c2, &c1, &c3, doc.as_bytes()), Ok(false));
}

#[test]
fn shape_errors_come_before_evaluation() {
    let (doc, proof, c1, c2, c3) = setup_and_prove();

    let mut short_a = proof.clone();
    short_a.a.truncate(63);
    assert_eq!(
        verify_proof(&short_a, &c1, &c2, &c3, doc.as_bytes()),
        Err(VerificationError::InvalidProof)
    );

    let mut long_b = proof.clone();
    long_b.b.push(0);
    assert_eq!(
        verify_proof(&long_b, &c1, &c2, &c3, doc.as_bytes()),
        Err(VerificationError::InvalidProof)
    );

    // the right element count but not a whole number of field elements
    let ragged = verify_groth16(&proof.a, &proof.b, &proof.c, &[0u8; 97], doc.as_bytes());
    assert_eq!(ragged, Err(VerificationError::InvalidInputLength));

    // too few inputs for the key
    let two = [c1.clone(), c2.clone()].concat();
    assert_eq!(
        verify_groth16(&proof.a, &proof.b, &proof.c, &two, doc.as_bytes()),
        Err(VerificationError::InputCountMismatch)
    );

    // when the count is wrong and the buffer is ragged, the count decides
    assert_eq!(
        verify_groth16(&proof.a, &proof.b, &proof.c, &[0u8; 31], doc.as_bytes()),
        Err(VerificationError::InputCountMismatch)
    );

    // a rejected key document
    assert_eq!(
        verify_proof(&proof, &c1, &c2, &c3, b"nonsense"),
        Err(VerificationError::InvalidVerifyingKey)
    );
}

#[test]
fn garbage_points_reject_without_error() {
    let (doc, proof, c1, c2, c3) = setup_and_prove();
    let mut garbage = proof.clone();
    garbage.a = vec![0x5a; 64];
    assert_eq!(verify_proof(&garbage, &c1, &c2, &c3, doc.as_bytes()), Ok(false));
}
