//! Fixed-width byte codecs for the two pairing groups.
//!
//! A G1 point is 64 bytes: 32-byte big-endian x, then y.  A G2 point is 128
//! bytes: the two coordinates of x, then the two coordinates of y, each a
//! 32-byte big-endian base-field value.  Decoding fails exactly on a wrong
//! length; the encoders are the structural inverses.
//!
//! A decoded coordinate keeps its raw 32-byte chunk value; reduction modulo
//! the field order happens where the value crosses into the pairing
//! backend, so two byte strings that agree modulo the order decode to
//! distinct points here yet verify identically.

use vstd::prelude::*;
use vstd::arithmetic::power2::pow2;
use crate::field::{FieldElement, be_nat, nat_to_be, lemma_be_nat_of_nat_to_be};

verus! {

/// A point encoding had the wrong byte length.
#[derive(Clone, Copy, PartialEq, Eq, Structural, Debug)]
pub struct EncodingError;

/// An affine point of the first pairing group.
#[derive(Clone, Copy, PartialEq, Eq, Structural, Debug)]
pub struct G1Point {
    pub x: FieldElement,
    pub y: FieldElement,
}

/// An affine point of the second pairing group; each coordinate is a pair of
/// base-field values forming a quadratic-extension element.
#[derive(Clone, Copy, PartialEq, Eq, Structural, Debug)]
pub struct G2Point {
    pub x_c0: FieldElement,
    pub x_c1: FieldElement,
    pub y_c0: FieldElement,
    pub y_c1: FieldElement,
}

/// Mathematical view of a G1 point: the two coordinate values.
pub ghost struct G1Val {
    pub x: nat,
    pub y: nat,
}

/// Mathematical view of a G2 point: the four coordinate values.
pub ghost struct G2Val {
    pub x_c0: nat,
    pub x_c1: nat,
    pub y_c0: nat,
    pub y_c1: nat,
}

impl View for G1Point {
    type V = G1Val;

    open spec fn view(&self) -> G1Val {
        G1Val { x: self.x@, y: self.y@ }
    }
}

impl View for G2Point {
    type V = G2Val;

    open spec fn view(&self) -> G2Val {
        G2Val { x_c0: self.x_c0@, x_c1: self.x_c1@, y_c0: self.y_c0@, y_c1: self.y_c1@ }
    }
}

pub open spec fn spec_decode_g1(s: Seq<u8>) -> Option<G1Val> {
    if s.len() == 64 {
        Some(G1Val { x: be_nat(s.subrange(0, 32)), y: be_nat(s.subrange(32, 64)) })
    } else {
        None
    }
}

pub open spec fn spec_encode_g1(p: G1Val) -> Seq<u8> {
    nat_to_be(p.x, 32) + nat_to_be(p.y, 32)
}

pub open spec fn spec_decode_g2(s: Seq<u8>) -> Option<G2Val> {
    if s.len() == 128 {
        Some(
            G2Val {
                x_c0: be_nat(s.subrange(0, 32)),
                x_c1: be_nat(s.subrange(32, 64)),
                y_c0: be_nat(s.subrange(64, 96)),
                y_c1: be_nat(s.subrange(96, 128)),
            },
        )
    } else {
        None
    }
}

pub open spec fn spec_encode_g2(p: G2Val) -> Seq<u8> {
    nat_to_be(p.x_c0, 32) + nat_to_be(p.x_c1, 32) + nat_to_be(p.y_c0, 32) + nat_to_be(p.y_c1, 32)
}

/// Decodes a 64-byte G1 encoding; any other length is an `EncodingError`.
pub fn decode_g1_point(bytes: &[u8]) -> (r: Result<G1Point, EncodingError>)
    ensures
        r is Ok <==> bytes@.len() == 64,
        r matches Ok(p) ==> spec_decode_g1(bytes@) == Some(p@),
        r is Err ==> r == Err::<G1Point, EncodingError>(EncodingError),
{
    if bytes.len() != 64 {
        return Err(EncodingError);
    }
    let x = FieldElement::from_be_bytes_at(bytes, 0);
    let y = FieldElement::from_be_bytes_at(bytes, 32);
    Ok(G1Point { x, y })
}

/// Decodes a 128-byte G2 encoding; any other length is an `EncodingError`.
pub fn decode_g2_point(bytes: &[u8]) -> (r: Result<G2Point, EncodingError>)
    ensures
        r is Ok <==> bytes@.len() == 128,
        r matches Ok(p) ==> spec_decode_g2(bytes@) == Some(p@),
        r is Err ==> r == Err::<G2Point, EncodingError>(EncodingError),
{
    if bytes.len() != 128 {
        return Err(EncodingError);
    }
    let x_c0 = FieldElement::from_be_bytes_at(bytes, 0);
    let x_c1 = FieldElement::from_be_bytes_at(bytes, 32);
    let y_c0 = FieldElement::from_be_bytes_at(bytes, 64);
    let y_c1 = FieldElement::from_be_bytes_at(bytes, 96);
    Ok(G2Point { x_c0, x_c1, y_c0, y_c1 })
}

/// Writes the 64-byte encoding of a G1 point.
pub fn encode_g1_point(p: &G1Point) -> (r: Vec<u8>)
    ensures
        r@ == spec_encode_g1(p@),
        r@.len() == 64,
{
    let mut out = p.x.to_be_bytes();
    let mut yb = p.y.to_be_bytes();
    out.append(&mut yb);
    out
}

/// Writes the 128-byte encoding of a G2 point.
pub fn encode_g2_point(p: &G2Point) -> (r: Vec<u8>)
    ensures
        r@ == spec_encode_g2(p@),
        r@.len() == 128,
{
    let mut out = p.x_c0.to_be_bytes();
    let mut b1 = p.x_c1.to_be_bytes();
    let mut b2 = p.y_c0.to_be_bytes();
    let mut b3 = p.y_c1.to_be_bytes();
    out.append(&mut b1);
    out.append(&mut b2);
    out.append(&mut b3);
    out
}

/// Round trip: decoding the encoding of any representable G1 point gives the
/// point back.
pub proof fn lemma_g1_round_trip(p: G1Val)
    requires
        p.x < pow2(256),
        p.y < pow2(256),
    ensures
        spec_decode_g1(spec_encode_g1(p)) == Some(p),
{
    let xb = nat_to_be(p.x, 32);
    let yb = nat_to_be(p.y, 32);
    lemma_be_nat_of_nat_to_be(p.x, 32);
    lemma_be_nat_of_nat_to_be(p.y, 32);
    assert((xb + yb).subrange(0, 32) =~= xb);
    assert((xb + yb).subrange(32, 64) =~= yb);
}

/// Round trip: decoding the encoding of any representable G2 point gives the
/// point back.
pub proof fn lemma_g2_round_trip(p: G2Val)
    requires
        p.x_c0 < pow2(256),
        p.x_c1 < pow2(256),
        p.y_c0 < pow2(256),
        p.y_c1 < pow2(256),
    ensures
        spec_decode_g2(spec_encode_g2(p)) == Some(p),
{
    let b0 = nat_to_be(p.x_c0, 32);
    let b1 = nat_to_be(p.x_c1, 32);
    let b2 = nat_to_be(p.y_c0, 32);
    let b3 = nat_to_be(p.y_c1, 32);
    lemma_be_nat_of_nat_to_be(p.x_c0, 32);
    lemma_be_nat_of_nat_to_be(p.x_c1, 32);
    lemma_be_nat_of_nat_to_be(p.y_c0, 32);
    lemma_be_nat_of_nat_to_be(p.y_c1, 32);
    let s = b0 + b1 + b2 + b3;
    assert(s.subrange(0, 32) =~= b0);
    assert(s.subrange(32, 64) =~= b1);
    assert(s.subrange(64, 96) =~= b2);
    assert(s.subrange(96, 128) =~= b3);
}

/// Round trip at the point level: every `G1Point` decodes back from its
/// own encoding.
pub proof fn lemma_g1_point_round_trip(p: G1Point)
    ensures
        spec_decode_g1(spec_encode_g1(p@)) == Some(p@),
{
    crate::field::lemma_fe_bound(p.x);
    crate::field::lemma_fe_bound(p.y);
    lemma_g1_round_trip(p@);
}

/// Round trip at the point level: every `G2Point` decodes back from its
/// own encoding.
pub proof fn lemma_g2_point_round_trip(p: G2Point)
    ensures
        spec_decode_g2(spec_encode_g2(p@)) == Some(p@),
{
    crate::field::lemma_fe_bound(p.x_c0);
    crate::field::lemma_fe_bound(p.x_c1);
    crate::field::lemma_fe_bound(p.y_c0);
    crate::field::lemma_fe_bound(p.y_c1);
    lemma_g2_round_trip(p@);
}

/// The field-element values of the consecutive 32-byte chunks of `s`.
pub open spec fn spec_field_chunks(s: Seq<u8>) -> Seq<nat> {
    Seq::new((s.len() / 32) as nat, |i: int| be_nat(s.subrange(32 * i, 32 * i + 32)))
}

/// The values of a sequence of field elements.
pub open spec fn fe_vals(s: Seq<FieldElement>) -> Seq<nat> {
    s.map_values(|f: FieldElement| f@)
}

/// Splits a buffer into 32-byte big-endian field elements; fails exactly when
/// the length is not a multiple of 32.
pub fn decode_field_elements(bytes: &[u8]) -> (r: Result<Vec<FieldElement>, EncodingError>)
    ensures
        r is Ok <==> bytes@.len() % 32 == 0,
        r matches Ok(v) ==> fe_vals(v@) == spec_field_chunks(bytes@),
        r is Err ==> r == Err::<Vec<FieldElement>, EncodingError>(EncodingError),
{
    let n: usize = bytes.len();
    if n % 32 != 0 {
        return Err(EncodingError);
    }
    let count: usize = n / 32;
    let mut out: Vec<FieldElement> = Vec::new();
    let mut i: usize = 0;
    while i < count
        invariant
            n == bytes@.len(),
            n % 32 == 0,
            count == n / 32,
            i <= count,
            out@.len() == i,
            forall|j: int| 0 <= j < i ==> out@[j]@ == be_nat(bytes@.subrange(32 * j, 32 * j + 32)),
        decreases count - i,
    {
        let fe = FieldElement::from_be_bytes_at(bytes, 32 * i);
        out.push(fe);
        i = i + 1;
    }
    proof {
        assert(fe_vals(out@) =~= spec_field_chunks(bytes@));
    }
    Ok(out)
}

} // verus!
