//! Field elements as canonical 32-byte big-endian values.
//!
//! A `FieldElement` carries a 256-bit value in four 64-bit limbs, most
//! significant limb first.  Its mathematical view is the natural number the
//! limbs denote, and the codec below converts between that value and the
//! fixed 32-byte big-endian wire form.

use vstd::prelude::*;
use vstd::arithmetic::power2::{pow2, lemma_pow2_adds, lemma_pow2_pos, lemma2_to64};
use vstd::arithmetic::div_mod::{lemma_fundamental_div_mod, lemma_fundamental_div_mod_converse};

verus! {

/// The natural number denoted by a byte sequence read in big-endian order.
pub open spec fn be_nat(s: Seq<u8>) -> nat
    decreases s.len(),
{
    if s.len() == 0 {
        0
    } else {
        be_nat(s.drop_last()) * 256 + s.last() as nat
    }
}

/// The canonical `n`-byte big-endian encoding of `v`.
pub open spec fn nat_to_be(v: nat, n: nat) -> Seq<u8>
    decreases n,
{
    if n == 0 {
        Seq::empty()
    } else {
        nat_to_be(v / 256, (n - 1) as nat).push((v % 256) as u8)
    }
}

pub proof fn lemma_be_nat_bound(s: Seq<u8>)
    ensures
        be_nat(s) < pow2(8 * s.len()),
    decreases s.len(),
{
    lemma2_to64();
    if s.len() == 0 {
    } else {
        lemma_be_nat_bound(s.drop_last());
        lemma_pow2_adds(8 * (s.len() - 1) as nat, 8);
        assert(be_nat(s.drop_last()) * 256 + s.last() < pow2(8 * (s.len() - 1) as nat) * 256)
            by (nonlinear_arith)
            requires
                be_nat(s.drop_last()) < pow2(8 * (s.len() - 1) as nat),
                s.last() < 256,
        ;
    }
}

pub proof fn lemma_be_nat_concat(a: Seq<u8>, b: Seq<u8>)
    ensures
        be_nat(a + b) == be_nat(a) * pow2(8 * b.len()) + be_nat(b),
    decreases b.len(),
{
    lemma2_to64();
    if b.len() == 0 {
        assert(a + b =~= a);
        assert(pow2(8 * b.len()) == 1);
        assert(be_nat(b) == 0);
        assert(be_nat(a) * 1 == be_nat(a)) by (nonlinear_arith);
    } else {
        lemma_be_nat_concat(a, b.drop_last());
        assert((a + b).drop_last() =~= a + b.drop_last());
        assert((a + b).last() == b.last());
        lemma_pow2_adds(8 * (b.len() - 1) as nat, 8);
        let p = pow2(8 * (b.len() - 1) as nat);
        let x = be_nat(a);
        let y = be_nat(b.drop_last());
        let l = b.last() as nat;
        assert(pow2(8 * b.len()) == p * 256);
        assert(be_nat(a + b) == (x * p + y) * 256 + l);
        assert((x * p + y) * 256 + l == x * (p * 256) + (y * 256 + l)) by (nonlinear_arith);
        assert(be_nat(b) == y * 256 + l);
    }
}

pub proof fn lemma_be_nat_of_nat_to_be(v: nat, n: nat)
    requires
        v < pow2(8 * n),
    ensures
        nat_to_be(v, n).len() == n,
        be_nat(nat_to_be(v, n)) == v,
    decreases n,
{
    lemma2_to64();
    if n == 0 {
    } else {
        lemma_pow2_adds(8 * (n - 1) as nat, 8);
        assert(v / 256 < pow2(8 * (n - 1) as nat)) by (nonlinear_arith)
            requires
                v < pow2(8 * (n - 1) as nat) * 256,
                pow2(8 * (n - 1) as nat) > 0,
        {
            lemma_pow2_pos(8 * (n - 1) as nat);
        }
        lemma_pow2_pos(8 * (n - 1) as nat);
        lemma_be_nat_of_nat_to_be(v / 256, (n - 1) as nat);
        let s = nat_to_be(v, n);
        assert(s.drop_last() =~= nat_to_be(v / 256, (n - 1) as nat));
        lemma_fundamental_div_mod(v as int, 256);
    }
}

pub proof fn lemma_nat_to_be_of_be_nat(s: Seq<u8>)
    ensures
        nat_to_be(be_nat(s), s.len()) =~= s,
    decreases s.len(),
{
    if s.len() == 0 {
    } else {
        let v = be_nat(s);
        lemma_fundamental_div_mod_converse(
            v as int,
            256,
            be_nat(s.drop_last()) as int,
            s.last() as int,
        );
        lemma_nat_to_be_of_be_nat(s.drop_last());
    }
}

/// A 256-bit value in four big-endian 64-bit limbs; the canonical in-memory
/// form of a 32-byte field-element encoding.
#[derive(Clone, Copy, PartialEq, Eq, Structural, Debug)]
pub struct FieldElement {
    pub w0: u64,
    pub w1: u64,
    pub w2: u64,
    pub w3: u64,
}

impl View for FieldElement {
    type V = nat;

    open spec fn view(&self) -> nat {
        (((self.w0 as nat) * pow2(64) + self.w1 as nat) * pow2(64) + self.w2 as nat) * pow2(64)
            + self.w3 as nat
    }
}

pub proof fn lemma_fe_bound(a: FieldElement)
    ensures
        a@ < pow2(256),
{
    lemma2_to64();
    lemma_pow2_adds(64, 64);
    lemma_pow2_adds(128, 64);
    lemma_pow2_adds(192, 64);
    let p = pow2(64);
    assert(((((a.w0 as nat) * p + a.w1 as nat) * p + a.w2 as nat) * p + (a.w3 as nat))
        < ((p * p) * p) * p)
        by (nonlinear_arith)
        requires
            (a.w0 as nat) < p,
            (a.w1 as nat) < p,
            (a.w2 as nat) < p,
            (a.w3 as nat) < p,
            p > 0,
    ;
    assert(pow2(256) == ((p * p) * p) * p);
}

/// Two field elements with the same value have the same limbs.
pub proof fn lemma_fe_view_injective(a: FieldElement, b: FieldElement)
    ensures
        a@ == b@ <==> a == b,
{
    lemma2_to64();
    if a@ == b@ {
        let p = pow2(64) as int;
        let a2 = ((a.w0 as int) * p + a.w1 as int) * p + a.w2 as int;
        let b2 = ((b.w0 as int) * p + b.w1 as int) * p + b.w2 as int;
        lemma_fundamental_div_mod_converse(a2 * p + a.w3 as int, p, a2, a.w3 as int);
        lemma_fundamental_div_mod_converse(b2 * p + b.w3 as int, p, b2, b.w3 as int);
        assert(a2 == b2 && a.w3 == b.w3);
        let a1 = (a.w0 as int) * p + a.w1 as int;
        let b1 = (b.w0 as int) * p + b.w1 as int;
        lemma_fundamental_div_mod_converse(a1 * p + a.w2 as int, p, a1, a.w2 as int);
        lemma_fundamental_div_mod_converse(b1 * p + b.w2 as int, p, b1, b.w2 as int);
        assert(a1 == b1 && a.w2 == b.w2);
        lemma_fundamental_div_mod_converse(a1, p, a.w0 as int, a.w1 as int);
        lemma_fundamental_div_mod_converse(b1, p, b.w0 as int, b.w1 as int);
        assert(a.w0 == b.w0 && a.w1 == b.w1);
    }
}

/// Reads one 64-bit limb out of eight big-endian bytes of `s` at `off`.
fn limb_from_be_bytes(s: &[u8], off: usize) -> (r: u64)
    requires
        off + 8 <= s@.len(),
    ensures
        r == be_nat(s@.subrange(off as int, off + 8)),
{
    let n: usize = s.len();
    let mut x: u64 = 0;
    let mut t: usize = 0;
    proof {
        lemma2_to64();
        assert(s@.subrange(off as int, off as int) =~= Seq::<u8>::empty());
    }
    while t < 8
        invariant
            t <= 8,
            n == s@.len(),
            off + 8 <= n,
            x == be_nat(s@.subrange(off as int, off + t)),
            x < pow2((8 * t) as nat),
        decreases 8 - t,
    {
        proof {
            lemma2_to64();
            lemma_pow2_adds((8 * t) as nat, 8);
            assert(x * 256 + 255 < pow2((8 * t) as nat) * 256) by (nonlinear_arith)
                requires
                    x < pow2((8 * t) as nat),
            ;
            assert(pow2((8 * t) as nat) * 256 <= pow2(64)) by {
                if t < 8 {
                    lemma_pow2_adds((8 * t + 8) as nat, (64 - 8 * t - 8) as nat);
                    lemma_pow2_pos((64 - 8 * t - 8) as nat);
                    assert(pow2((8 * t + 8) as nat) * pow2((64 - 8 * t - 8) as nat) == pow2(64));
                    assert(pow2((8 * t + 8) as nat) <= pow2(64)) by (nonlinear_arith)
                        requires
                            pow2((8 * t + 8) as nat) * pow2((64 - 8 * t - 8) as nat) == pow2(64),
                            pow2((64 - 8 * t - 8) as nat) >= 1,
                    ;
                }
            }
            assert(s@.subrange(off as int, off + t + 1).drop_last() =~= s@.subrange(
                off as int,
                off + t,
            ));
        }
        x = x * 256 + (s[off + t] as u64);
        t = t + 1;
    }
    proof {
        assert(s@.subrange(off as int, off + 8) =~= s@.subrange(off as int, off + t));
    }
    x
}

/// Appends the eight big-endian bytes of `x` to `out`.
fn limb_to_be_bytes(x: u64, out: &mut Vec<u8>)
    ensures
        final(out)@ =~= old(out)@ + nat_to_be(x as nat, 8),
{
    let v0: u64 = x;
    let v1: u64 = v0 / 256;
    let v2: u64 = v1 / 256;
    let v3: u64 = v2 / 256;
    let v4: u64 = v3 / 256;
    let v5: u64 = v4 / 256;
    let v6: u64 = v5 / 256;
    let v7: u64 = v6 / 256;
    proof {
        assert(nat_to_be(v7 as nat, 1) =~= seq![(v7 % 256) as u8]) by {
            assert(v7 / 256 == 0);
            assert(nat_to_be((v7 / 256) as nat, 0) =~= Seq::<u8>::empty());
        }
        assert(nat_to_be(v6 as nat, 2) =~= nat_to_be(v7 as nat, 1).push((v6 % 256) as u8));
        assert(nat_to_be(v5 as nat, 3) =~= nat_to_be(v6 as nat, 2).push((v5 % 256) as u8));
        assert(nat_to_be(v4 as nat, 4) =~= nat_to_be(v5 as nat, 3).push((v4 % 256) as u8));
        assert(nat_to_be(v3 as nat, 5) =~= nat_to_be(v4 as nat, 4).push((v3 % 256) as u8));
        assert(nat_to_be(v2 as nat, 6) =~= nat_to_be(v3 as nat, 5).push((v2 % 256) as u8));
        assert(nat_to_be(v1 as nat, 7) =~= nat_to_be(v2 as nat, 6).push((v1 % 256) as u8));
        assert(nat_to_be(v0 as nat, 8) =~= nat_to_be(v1 as nat, 7).push((v0 % 256) as u8));
    }
    out.push((v7 % 256) as u8);
    out.push((v6 % 256) as u8);
    out.push((v5 % 256) as u8);
    out.push((v4 % 256) as u8);
    out.push((v3 % 256) as u8);
    out.push((v2 % 256) as u8);
    out.push((v1 % 256) as u8);
    out.push((v0 % 256) as u8);
}

impl FieldElement {
    /// The zero element, the tree's default leaf value.
    pub fn zero() -> (r: FieldElement)
        ensures
            r@ == 0,
    {
        FieldElement { w0: 0, w1: 0, w2: 0, w3: 0 }
    }

    /// Embeds a small scalar.
    pub fn from_u64(x: u64) -> (r: FieldElement)
        ensures
            r@ == x,
    {
        FieldElement { w0: 0, w1: 0, w2: 0, w3: x }
    }

    /// Reads the 32-byte big-endian wire form.
    pub fn from_be_bytes(s: &[u8]) -> (r: FieldElement)
        requires
            s@.len() == 32,
        ensures
            r@ == be_nat(s@),
    {
        let r = Self::from_be_bytes_at(s, 0);
        proof {
            assert(s@.subrange(0, 32) =~= s@);
        }
        r
    }

    /// Reads a 32-byte big-endian wire form starting at `off`.
    pub fn from_be_bytes_at(s: &[u8], off: usize) -> (r: FieldElement)
        requires
            off + 32 <= s@.len(),
        ensures
            r@ == be_nat(s@.subrange(off as int, off + 32)),
    {
        let n: usize = s.len();
        assert(off + 32 <= n);
        let w0 = limb_from_be_bytes(s, off);
        let w1 = limb_from_be_bytes(s, off + 8);
        let w2 = limb_from_be_bytes(s, off + 16);
        let w3 = limb_from_be_bytes(s, off + 24);
        proof {
            let sub = s@.subrange(off as int, off + 32);
            lemma_four_chunks(sub);
            assert(sub.subrange(0, 8) =~= s@.subrange(off as int, off + 8));
            assert(sub.subrange(8, 16) =~= s@.subrange(off + 8, off + 16));
            assert(sub.subrange(16, 24) =~= s@.subrange(off + 16, off + 24));
            assert(sub.subrange(24, 32) =~= s@.subrange(off + 24, off + 32));
        }
        FieldElement { w0, w1, w2, w3 }
    }

    /// Writes the 32-byte big-endian wire form.
    pub fn to_be_bytes(&self) -> (r: Vec<u8>)
        ensures
            r@.len() == 32,
            be_nat(r@) == self@,
            r@ == nat_to_be(self@, 32),
    {
        let mut out: Vec<u8> = Vec::new();
        limb_to_be_bytes(self.w0, &mut out);
        limb_to_be_bytes(self.w1, &mut out);
        limb_to_be_bytes(self.w2, &mut out);
        limb_to_be_bytes(self.w3, &mut out);
        proof {
            lemma2_to64();
            let b0 = nat_to_be(self.w0 as nat, 8);
            let b1 = nat_to_be(self.w1 as nat, 8);
            let b2 = nat_to_be(self.w2 as nat, 8);
            let b3 = nat_to_be(self.w3 as nat, 8);
            lemma_be_nat_of_nat_to_be(self.w0 as nat, 8);
            lemma_be_nat_of_nat_to_be(self.w1 as nat, 8);
            lemma_be_nat_of_nat_to_be(self.w2 as nat, 8);
            lemma_be_nat_of_nat_to_be(self.w3 as nat, 8);
            assert(out@ =~= ((b0 + b1) + b2) + b3);
            lemma_be_nat_concat((b0 + b1) + b2, b3);
            lemma_be_nat_concat(b0 + b1, b2);
            lemma_be_nat_concat(b0, b1);
            lemma_nat_to_be_of_be_nat(out@);
        }
        out
    }
}

/// A 32-byte sequence denotes the nested combination of its four 8-byte limbs.
proof fn lemma_four_chunks(s: Seq<u8>)
    requires
        s.len() == 32,
    ensures
        be_nat(s) == ((be_nat(s.subrange(0, 8)) * pow2(64) + be_nat(s.subrange(8, 16))) * pow2(64)
            + be_nat(s.subrange(16, 24))) * pow2(64) + be_nat(s.subrange(24, 32)),
{
    lemma2_to64();
    let a = s.subrange(0, 8);
    let b = s.subrange(8, 16);
    let c = s.subrange(16, 24);
    let d = s.subrange(24, 32);
    assert(s =~= ((a + b) + c) + d);
    lemma_be_nat_concat((a + b) + c, d);
    lemma_be_nat_concat(a + b, c);
    lemma_be_nat_concat(a, b);
}

} // verus!
