use zksnark_core::codec::{
    decode_field_elements, decode_g1_point, decode_g2_point, encode_g1_point, encode_g2_point,
    EncodingError, G1Point, G2Point,
};
use zksnark_core::field::FieldElement;

fn fe(x: u64) -> FieldElement {
    FieldElement::from_u64(x)
}

fn fe_bytes(pattern: u8) -> FieldElement {
    FieldElement::from_be_bytes(&[pattern; 32])
}

#[test]
fn field_element_round_trip() {
    let a = fe_bytes(0xab);
    let enc = a.to_be_bytes();
    assert_eq!(enc.len(), 32);
    assert_eq!(enc, vec![0xab; 32]);
    let back = FieldElement::from_be_bytes(&enc);
    assert_eq!(back, a);
}

#[test]
fn field_element_from_u64_layout() {
    let a = fe(0x0102_0304_0506_0708);
    let enc = a.to_be_bytes();
    let mut expect = vec![0u8; 24];
    expect.extend_from_slice(&[1, 2, 3, 4, 5, 6, 7, 8]);
    assert_eq!(enc, expect);
}

#[test]
fn g1_round_trip() {
    let p = G1Point { x: fe(7), y: fe_bytes(0x33) };
    let enc = encode_g1_point(&p);
    assert_eq!(enc.len(), 64);
    let back = decode_g1_point(&enc).unwrap();
    assert_eq!(back, p);
}

#[test]
fn g2_round_trip() {
    let p = G2Point { x_c0: fe(1), x_c1: fe(2), y_c0: fe_bytes(0x55), y_c1: fe(u64::MAX) };
    let enc = encode_g2_point(&p);
    assert_eq!(enc.len(), 128);
    let back = decode_g2_point(&enc).unwrap();
    assert_eq!(back, p);
}

#[test]
fn g1_wrong_lengths_are_encoding_errors() {
    assert_eq!(decode_g1_point(&[0u8; 63]), Err(EncodingError));
    assert_eq!(decode_g1_point(&[0u8; 65]), Err(EncodingError));
    assert_eq!(decode_g1_point(&[]), Err(EncodingError));
    assert!(decode_g1_point(&[0u8; 64]).is_ok());
}

#[test]
fn g2_wrong_lengths_are_encoding_errors() {
    assert_eq!(decode_g2_point(&[0u8; 127]), Err(EncodingError));
    assert_eq!(decode_g2_point(&[0u8; 129]), Err(EncodingError));
    assert!(decode_g2_point(&[0u8; 128]).is_ok());
}

#[test]
fn field_chunking() {
    let mut buf = vec![0u8; 32];
    buf.extend_from_slice(&[0xff; 32]);
    let elems = decode_field_elements(&buf).unwrap();
    assert_eq!(elems.len(), 2);
    assert_eq!(elems[0], FieldElement::zero());
    assert_eq!(elems[1], fe_bytes(0xff));
    assert_eq!(decode_field_elements(&[0u8; 31]), Err(EncodingError));
    assert_eq!(decode_field_elements(&[0u8; 33]), Err(EncodingError));
    assert_eq!(decode_field_elements(&[]).unwrap().len(), 0);
}
