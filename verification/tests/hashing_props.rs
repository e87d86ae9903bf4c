use zksnark_core::field::FieldElement;
use zksnark_core::hashing::{compute_commitment, compute_nullifier_hash, hash_pair};

#[test]
fn commitment_is_deterministic() {
    let secret = [7u8; 32];
    let nullifier = [9u8; 32];
    let c1 = compute_commitment(100, &secret, &nullifier);
    let c2 = compute_commitment(100, &secret, &nullifier);
    assert_eq!(c1, c2);
    assert_eq!(c1.len(), 32);
}

#[test]
fn commitment_sensitive_to_every_input() {
    let secret = [7u8; 32];
    let nullifier = [9u8; 32];
    let base = compute_commitment(100, &secret, &nullifier);

    assert_ne!(base, compute_commitment(101, &secret, &nullifier));

    for i in 0..32 {
        let mut s = secret;
        s[i] ^= 1;
        assert_ne!(base, compute_commitment(100, &s, &nullifier));
        let mut n = nullifier;
        n[i] ^= 0x80;
        assert_ne!(base, compute_commitment(100, &secret, &n));
    }
}

#[test]
fn nullifier_hash_is_deterministic_and_ordered() {
    let secret = [1u8; 32];
    let nullifier = [2u8; 32];
    let h1 = compute_nullifier_hash(&nullifier, &secret);
    let h2 = compute_nullifier_hash(&nullifier, &secret);
    assert_eq!(h1, h2);
    assert_eq!(h1.len(), 32);
    // swapping the operands changes the hash
    assert_ne!(h1, compute_nullifier_hash(&secret, &nullifier));
}

#[test]
fn commitment_and_nullifier_domains_differ() {
    // commitment prepends the amount bytes, so even amount 0 differs from
    // the bare nullifier/secret combination in the other order
    let secret = [3u8; 32];
    let nullifier = [4u8; 32];
    let c = compute_commitment(0, &secret, &nullifier);
    let h = compute_nullifier_hash(&nullifier, &secret);
    assert_ne!(c, h);
}

#[test]
fn hash_pair_depends_on_order() {
    let a = FieldElement::from_u64(1);
    let b = FieldElement::from_u64(2);
    let ab = hash_pair(&a, &b);
    let ba = hash_pair(&b, &a);
    assert_ne!(ab, ba);
    assert_eq!(hash_pair(&a, &b), ab);
}

#[test]
fn hash_pair_known_value() {
    // SHA-256 of 64 zero bytes, reduced to its raw 32 bytes
    let z = FieldElement::zero();
    let h = hash_pair(&z, &z);
    let expect: [u8; 32] = [
        0xf5, 0xa5, 0xfd, 0x42, 0xd1, 0x6a, 0x20, 0x30, 0x27, 0x98, 0xef, 0x6e, 0xd3, 0x09, 0x97,
        0x9b, 0x43, 0x00, 0x3d, 0x23, 0x20, 0xd9, 0xf0, 0xe8, 0xea, 0x98, 0x31, 0xa9, 0x27, 0x59,
        0xfb, 0x4b,
    ];
    assert_eq!(h.to_be_bytes(), expect.to_vec());
}
