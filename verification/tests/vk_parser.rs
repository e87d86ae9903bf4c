use zksnark_core::codec::{encode_g1_point, encode_g2_point, G1Point, G2Point};
use zksnark_core::field::FieldElement;
use zksnark_core::vk::{hex_decode, parse_verification_key, KeyError};

fn fe(x: u64) -> FieldElement {
    FieldElement::from_u64(x)
}

fn hex_of(bytes: &[u8]) -> String {
    let mut s = String::new();
    for b in bytes {
        s.push_str(&format!("{:02x}", b));
    }
    s
}

fn g1_hex(p: &G1Point) -> String {
    hex_of(&encode_g1_point(p))
}

fn g2_hex(p: &G2Point) -> String {
    hex_of(&encode_g2_point(p))
}

fn sample_g1(seed: u64) -> G1Point {
    G1Point { x: fe(seed), y: fe(seed + 1) }
}

fn sample_g2(seed: u64) -> G2Point {
    G2Point { x_c0: fe(seed), x_c1: fe(seed + 1), y_c0: fe(seed + 2), y_c1: fe(seed + 3) }
}

fn sample_doc() -> String {
    format!(
        "{{\n  \"alpha\": [\"{}\"],\n  \"beta\": [\"{}\"],\n  \"gamma\": [\"{}\"],\n  \"delta\": [\"{}\"],\n  \"IC\": [\"{}\", \"{}\"]\n}}\n",
        g1_hex(&sample_g1(1)),
        g2_hex(&sample_g2(10)),
        g2_hex(&sample_g2(20)),
        g2_hex(&sample_g2(30)),
        g1_hex(&sample_g1(40)),
        g1_hex(&sample_g1(50)),
    )
}

#[test]
fn hex_decode_cases() {
    assert_eq!(hex_decode(b"00ff10Ab"), Some(vec![0x00, 0xff, 0x10, 0xab]));
    assert_eq!(hex_decode(b""), Some(vec![]));
    assert_eq!(hex_decode(b"abc"), None);
    assert_eq!(hex_decode(b"zz"), None);
    assert_eq!(hex_decode(b"0g"), None);
    assert_eq!(hex_decode(b"ABCDEF"), Some(vec![0xab, 0xcd, 0xef]));
}

#[test]
fn parses_a_well_formed_document() {
    let doc = sample_doc();
    let vk = parse_verification_key(doc.as_bytes()).unwrap();
    assert_eq!(vk.alpha_g1, sample_g1(1));
    assert_eq!(vk.beta_g2, sample_g2(10));
    assert_eq!(vk.gamma_g2, sample_g2(20));
    assert_eq!(vk.delta_g2, sample_g2(30));
    assert_eq!(vk.gamma_abc_g1, vec![sample_g1(40), sample_g1(50)]);
}

#[test]
fn parses_regardless_of_key_order_and_whitespace() {
    let doc = format!(
        "  {{\"IC\":[\"{}\"],\"delta\":[\"{}\"] , \"gamma\":[\"{}\"],\n\t\"beta\":[\"{}\"],\"alpha\":[\"{}\"]}}  ",
        g1_hex(&sample_g1(40)),
        g2_hex(&sample_g2(30)),
        g2_hex(&sample_g2(20)),
        g2_hex(&sample_g2(10)),
        g1_hex(&sample_g1(1)),
    );
    let vk = parse_verification_key(doc.as_bytes()).unwrap();
    assert_eq!(vk.alpha_g1, sample_g1(1));
    assert_eq!(vk.gamma_abc_g1.len(), 1);
}

#[test]
fn unread_fields_of_any_shape_are_tolerated() {
    let doc = format!(
        "{{\"protocol\": \"groth16\", \"curve\": \"bn128\", \"nPublic\": 3,\n  \
         \"alpha\": [\"{}\"], \"beta\": [\"{}\"], \"gamma\": [\"{}\"],\n  \
         \"vk_alphabeta_12\": [[[\"1\", \"2\"], [3, 4]], []],\n  \
         \"meta\": {{\"nested\": {{\"deep\": true}}, \"list\": [null, -1.5e3]}},\n  \
         \"delta\": [\"{}\"], \"IC\": [\"{}\"]}}",
        g1_hex(&sample_g1(1)),
        g2_hex(&sample_g2(10)),
        g2_hex(&sample_g2(20)),
        g2_hex(&sample_g2(30)),
        g1_hex(&sample_g1(40)),
    );
    let vk = parse_verification_key(doc.as_bytes()).unwrap();
    assert_eq!(vk.alpha_g1, sample_g1(1));
    assert_eq!(vk.delta_g2, sample_g2(30));
    assert_eq!(vk.gamma_abc_g1, vec![sample_g1(40)]);
}

#[test]
fn a_used_field_of_the_wrong_shape_reads_as_missing() {
    // alpha is a bare number, not an array of strings: skipped, so alpha
    // is absent and the document is rejected
    let doc = format!(
        "{{\"alpha\": 5, \"beta\": [\"{}\"], \"gamma\": [\"{}\"], \"delta\": [\"{}\"], \"IC\": [\"{}\"]}}",
        g2_hex(&sample_g2(10)),
        g2_hex(&sample_g2(20)),
        g2_hex(&sample_g2(30)),
        g1_hex(&sample_g1(40)),
    );
    assert_eq!(parse_verification_key(doc.as_bytes()), Err(KeyError::ParseError));
}

#[test]
fn malformed_unread_values_still_reject() {
    // unbalanced nested array in an unread field
    let doc = format!(
        "{{\"junk\": [[1, 2], \"alpha\": [\"{}\"]}}",
        g1_hex(&sample_g1(1)),
    );
    assert_eq!(parse_verification_key(doc.as_bytes()), Err(KeyError::ParseError));
    // trailing comma in an unread array
    assert_eq!(parse_verification_key(b"{\"junk\": [1,]}"), Err(KeyError::ParseError));
}

#[test]
fn missing_field_is_a_parse_error() {
    let doc = format!(
        "{{\"alpha\": [\"{}\"], \"beta\": [\"{}\"], \"gamma\": [\"{}\"], \"IC\": []}}",
        g1_hex(&sample_g1(1)),
        g2_hex(&sample_g2(10)),
        g2_hex(&sample_g2(20)),
    );
    assert_eq!(parse_verification_key(doc.as_bytes()), Err(KeyError::ParseError));
}

#[test]
fn empty_field_array_is_a_parse_error() {
    let doc = format!(
        "{{\"alpha\": [], \"beta\": [\"{}\"], \"gamma\": [\"{}\"], \"delta\": [\"{}\"], \"IC\": []}}",
        g2_hex(&sample_g2(10)),
        g2_hex(&sample_g2(20)),
        g2_hex(&sample_g2(30)),
    );
    assert_eq!(parse_verification_key(doc.as_bytes()), Err(KeyError::ParseError));
}

#[test]
fn invalid_hex_is_a_parse_error() {
    let doc = sample_doc().replace(&g1_hex(&sample_g1(1)), "nothex!");
    assert_eq!(parse_verification_key(doc.as_bytes()), Err(KeyError::ParseError));
}

#[test]
fn wrong_point_length_is_an_encoding_error() {
    // alpha decodes as hex but is two bytes short of a G1 encoding
    let short = hex_of(&[0u8; 62]);
    let doc = sample_doc().replace(&g1_hex(&sample_g1(1)), &short);
    assert_eq!(parse_verification_key(doc.as_bytes()), Err(KeyError::EncodingError));
}

#[test]
fn malformed_documents_are_parse_errors() {
    assert_eq!(parse_verification_key(b""), Err(KeyError::ParseError));
    assert_eq!(parse_verification_key(b"not a document"), Err(KeyError::ParseError));
    assert_eq!(parse_verification_key(b"{"), Err(KeyError::ParseError));
    assert_eq!(parse_verification_key(b"{}"), Err(KeyError::ParseError));
    assert_eq!(
        parse_verification_key(b"{\"alpha\": [\"00\"] trailing"),
        Err(KeyError::ParseError)
    );
    let with_tail = format!("{} extra", sample_doc());
    assert_eq!(parse_verification_key(with_tail.as_bytes()), Err(KeyError::ParseError));
}

#[test]
fn empty_object_misses_every_field() {
    assert_eq!(parse_verification_key(b" { } "), Err(KeyError::ParseError));
}

#[test]
fn ic_order_is_kept() {
    let doc = sample_doc();
    let vk = parse_verification_key(doc.as_bytes()).unwrap();
    assert_eq!(vk.gamma_abc_g1[0], sample_g1(40));
    assert_eq!(vk.gamma_abc_g1[1], sample_g1(50));
}
