//! Verifying-key document parser.
//!
//! The key document is structured text: an object whose read fields are
//! arrays of double-quoted hex strings.  The fields `alpha`, `beta`,
//! `gamma` and `delta` give one point each (the first array element is
//! used), and `IC` gives the ordered `gamma_abc_g1` list.  A field of any
//! other value shape — a number, a literal, a nested array or object — is
//! passed over by outline, so a document may carry protocol tags or other
//! unread fields.  A missing field, malformed document or invalid hex is a
//! `ParseError`; hex that decodes to a wrong point length is an
//! `EncodingError`.

use vstd::prelude::*;
use crate::codec::{G1Val, G2Val, G1Point, G2Point, spec_decode_g1, spec_decode_g2, decode_g1_point,
    decode_g2_point};

verus! {

/// Why a key document was rejected: `ParseError` for a missing or malformed
/// field, `EncodingError` for a hex field of the wrong byte length.
#[derive(Clone, Copy, PartialEq, Eq, Structural, Debug)]
pub enum KeyError {
    ParseError,
    EncodingError,
}

// ---------------------------------------------------------------------------
// hex
// ---------------------------------------------------------------------------

/// The value of one ASCII hex digit.
pub open spec fn hex_digit_val(c: u8) -> Option<u8> {
    if 48 <= c <= 57 {
        Some((c - 48) as u8)
    } else if 97 <= c <= 102 {
        Some((c - 87) as u8)
    } else if 65 <= c <= 70 {
        Some((c - 55) as u8)
    } else {
        None
    }
}

/// Hex decoding: two digits per byte, upper or lower case; fails on an odd
/// length or a non-hex character.
pub open spec fn spec_hex_decode(s: Seq<u8>) -> Option<Seq<u8>>
    decreases s.len(),
{
    if s.len() % 2 != 0 {
        None
    } else if s.len() == 0 {
        Some(Seq::empty())
    } else {
        match (hex_digit_val(s[0]), hex_digit_val(s[1])) {
            (Some(h), Some(l)) => match spec_hex_decode(s.skip(2)) {
                Some(rest) => Some(Seq::empty().push((h * 16 + l) as u8) + rest),
                None => None,
            },
            _ => None,
        }
    }
}

/// The value of one ASCII hex digit, or `None`.
fn hex_digit(c: u8) -> (r: Option<u8>)
    ensures
        r == hex_digit_val(c),
{
    if 48 <= c && c <= 57 {
        Some(c - 48)
    } else if 97 <= c && c <= 102 {
        Some(c - 87)
    } else if 65 <= c && c <= 70 {
        Some(c - 55)
    } else {
        None
    }
}

/// Decodes an ASCII hex string into bytes.
pub fn hex_decode(s: &[u8]) -> (r: Option<Vec<u8>>)
    ensures
        r is Some <==> spec_hex_decode(s@) is Some,
        r matches Some(v) ==> Some(v@) == spec_hex_decode(s@),
{
    let n: usize = s.len();
    if n % 2 != 0 {
        return None;
    }
    let mut out: Vec<u8> = Vec::new();
    let mut i: usize = 0;
    proof {
        assert(s@.skip(0) =~= s@);
        if let Some(rest) = spec_hex_decode(s@) {
            assert(out@ + rest =~= rest);
        }
    }
    while i < n
        invariant
            n == s@.len(),
            n % 2 == 0,
            i <= n,
            i % 2 == 0,
            out@.len() == i / 2,
            (match spec_hex_decode(s@.skip(i as int)) {
                Some(rest) => spec_hex_decode(s@) == Some(out@ + rest),
                None => spec_hex_decode(s@) is None,
            }),
        decreases n - i,
    {
        proof {
            assert(s@.skip(i as int).len() == n - i);
            assert(s@.skip(i as int)[0] == s@[i as int]);
            assert(s@.skip(i as int)[1] == s@[i as int + 1]);
            assert(s@.skip(i as int).skip(2) =~= s@.skip(i as int + 2));
        }
        let h = hex_digit(s[i]);
        let l = hex_digit(s[i + 1]);
        match (h, l) {
            (Some(hv), Some(lv)) => {
                out.push(hv * 16 + lv);
                proof {
                    if let Some(rest) = spec_hex_decode(s@.skip(i as int + 2)) {
                        assert(spec_hex_decode(s@.skip(i as int)) == Some(
                            Seq::empty().push((hv * 16 + lv) as u8) + rest,
                        ));
                        assert(out@ + rest =~= (out@.drop_last() + (Seq::empty().push(
                            (hv * 16 + lv) as u8,
                        ) + rest)));
                    }
                }
                i = i + 2;
            },
            _ => {
                proof {
                    assert(spec_hex_decode(s@.skip(i as int)) is None);
                }
                return None;
            },
        }
    }
    proof {
        assert(s@.skip(n as int) =~= Seq::<u8>::empty());
        assert(spec_hex_decode(s@.skip(n as int)) == Some(Seq::<u8>::empty()));
        assert(out@ + Seq::<u8>::empty() =~= out@);
    }
    Some(out)
}

// ---------------------------------------------------------------------------
// document text
// ---------------------------------------------------------------------------

/// Space, tab, line feed or carriage return.
pub open spec fn is_ws(c: u8) -> bool {
    c == 32 || c == 9 || c == 10 || c == 13
}

/// The first position at or after `p` that holds no whitespace.
pub open spec fn spec_skip_ws(s: Seq<u8>, p: nat) -> nat
    decreases s.len() - p,
{
    if p >= s.len() {
        p
    } else if is_ws(s[p as int]) {
        spec_skip_ws(s, p + 1)
    } else {
        p
    }
}

/// Advances past whitespace.
fn skip_ws(s: &[u8], p: usize) -> (r: usize)
    requires
        p <= s@.len(),
    ensures
        r == spec_skip_ws(s@, p as nat),
        p <= r <= s@.len(),
{
    let n: usize = s.len();
    let mut q = p;
    while q < n && (s[q] == 32 || s[q] == 9 || s[q] == 10 || s[q] == 13)
        invariant
            n == s@.len(),
            p <= q <= n,
            spec_skip_ws(s@, p as nat) == spec_skip_ws(s@, q as nat),
        decreases n - q,
    {
        q = q + 1;
    }
    q
}

/// The position of the next double quote at or after `p`.
pub open spec fn spec_find_quote(s: Seq<u8>, p: nat) -> Option<nat>
    decreases s.len() - p,
{
    if p >= s.len() {
        None
    } else if s[p as int] == 34 {
        Some(p)
    } else {
        spec_find_quote(s, p + 1)
    }
}

/// A double-quoted run of bytes: the content and the position after the
/// closing quote.  No escape forms: the content is everything up to the
/// next quote.
pub open spec fn spec_parse_string(s: Seq<u8>, p: nat) -> Option<(Seq<u8>, nat)> {
    if p < s.len() && s[p as int] == 34 {
        match spec_find_quote(s, p + 1) {
            Some(q) => Some((s.subrange(p as int + 1, q as int), (q + 1) as nat)),
            None => None,
        }
    } else {
        None
    }
}

/// Reads one quoted string starting exactly at `p`.
fn parse_string(s: &[u8], p: usize) -> (r: Option<(Vec<u8>, usize)>)
    requires
        p <= s@.len(),
    ensures
        r is Some <==> spec_parse_string(s@, p as nat) is Some,
        r matches Some(v) ==> spec_parse_string(s@, p as nat) == Some((v.0@, v.1 as nat)) && p
            < v.1 <= s@.len(),
{
    let n: usize = s.len();
    if p >= n || s[p] != 34 {
        return None;
    }
    let mut q: usize = p + 1;
    while q < n && s[q] != 34
        invariant
            n == s@.len(),
            p + 1 <= q <= n,
            spec_find_quote(s@, (p + 1) as nat) == spec_find_quote(s@, q as nat),
        decreases n - q,
    {
        q = q + 1;
    }
    if q >= n {
        proof {
            assert(spec_find_quote(s@, q as nat) is None);
        }
        return None;
    }
    let mut content: Vec<u8> = Vec::new();
    let mut m: usize = p + 1;
    while m < q
        invariant
            n == s@.len(),
            p + 1 <= m <= q < n,
            content@ =~= s@.subrange(p + 1, m as int),
        decreases q - m,
    {
        proof {
            assert(s@.subrange(p + 1, m + 1) =~= s@.subrange(p + 1, m as int).push(s@[m as int]));
        }
        content.push(s[m]);
        m = m + 1;
    }
    proof {
        assert(spec_find_quote(s@, q as nat) == Some(q as nat));
    }
    Some((content, q + 1))
}

/// The byte sequences of a sequence of byte vectors.
pub open spec fn vecs_view(s: Seq<Vec<u8>>) -> Seq<Seq<u8>> {
    s.map_values(|v: Vec<u8>| v@)
}

/// The views of a sequence of key/value pairs.
pub open spec fn pair_vals(s: Seq<(Vec<u8>, Vec<Vec<u8>>)>) -> Seq<(Seq<u8>, Seq<Seq<u8>>)> {
    s.map_values(|p: (Vec<u8>, Vec<Vec<u8>>)| (p.0@, vecs_view(p.1@)))
}

/// One or more quoted strings separated by commas, closed by `]`; yields
/// the strings and the position after the bracket.
pub open spec fn spec_parse_items(s: Seq<u8>, p: nat) -> Option<(Seq<Seq<u8>>, nat)>
    decreases s.len() - p,
{
    match spec_parse_string(s, p) {
        Some((v, p2)) => if p < p2 <= s.len() {
            let q = spec_skip_ws(s, p2);
            if q < s.len() && s[q as int] == 93 {
                Some((Seq::empty().push(v), (q + 1) as nat))
            } else if q < s.len() && s[q as int] == 44 {
                let q2 = spec_skip_ws(s, (q + 1) as nat);
                if p < q2 <= s.len() {
                    match spec_parse_items(s, q2) {
                        Some((rest, p3)) => Some((Seq::empty().push(v) + rest, p3)),
                        None => None,
                    }
                } else {
                    None
                }
            } else {
                None
            }
        } else {
            None
        },
        None => None,
    }
}

/// A bracketed array of quoted strings, possibly empty.
pub open spec fn spec_parse_array(s: Seq<u8>, p: nat) -> Option<(Seq<Seq<u8>>, nat)> {
    if p < s.len() && s[p as int] == 91 {
        let q = spec_skip_ws(s, (p + 1) as nat);
        if q < s.len() && s[q as int] == 93 {
            Some((Seq::empty(), (q + 1) as nat))
        } else {
            spec_parse_items(s, q)
        }
    } else {
        None
    }
}

/// A byte that may stand in an unquoted scalar value: anything but
/// whitespace and the structural characters.
pub open spec fn is_scalar_byte(c: u8) -> bool {
    !is_ws(c) && c != 34 && c != 44 && c != 58 && c != 91 && c != 93 && c != 123 && c != 125
}

/// The end of the run of scalar bytes starting at `p`.
pub open spec fn spec_scalar_end(s: Seq<u8>, p: nat) -> nat
    decreases s.len() - p,
{
    if p >= s.len() {
        p
    } else if is_scalar_byte(s[p as int]) {
        spec_scalar_end(s, p + 1)
    } else {
        p
    }
}

/// Skips one value of any shape: a quoted string, a bracketed array, a
/// braced object, or a scalar run such as a number or literal.  Only the
/// outline is checked; the position after the value comes back.
pub open spec fn spec_skip_value(s: Seq<u8>, p: nat) -> Option<nat>
    decreases 2 * (s.len() - p),
{
    if p >= s.len() {
        None
    } else if s[p as int] == 34 {
        match spec_parse_string(s, p) {
            Some((v, p2)) => Some(p2),
            None => None,
        }
    } else if s[p as int] == 91 {
        let q = spec_skip_ws(s, (p + 1) as nat);
        if q < s.len() && s[q as int] == 93 {
            Some((q + 1) as nat)
        } else if p < q <= s.len() {
            spec_skip_elements(s, q)
        } else {
            None
        }
    } else if s[p as int] == 123 {
        let q = spec_skip_ws(s, (p + 1) as nat);
        if q < s.len() && s[q as int] == 125 {
            Some((q + 1) as nat)
        } else if p < q <= s.len() {
            spec_skip_members(s, q)
        } else {
            None
        }
    } else if is_scalar_byte(s[p as int]) {
        Some(spec_scalar_end(s, p))
    } else {
        None
    }
}

/// Skips the comma-separated values after an opening bracket, up to and
/// past the closing bracket.
pub open spec fn spec_skip_elements(s: Seq<u8>, p: nat) -> Option<nat>
    decreases 2 * (s.len() - p) + 1,
{
    if p > s.len() {
        None
    } else {
        match spec_skip_value(s, p) {
        Some(p2) => if p < p2 <= s.len() {
            let q = spec_skip_ws(s, p2);
            if q < s.len() && s[q as int] == 93 {
                Some((q + 1) as nat)
            } else if q < s.len() && s[q as int] == 44 {
                let q2 = spec_skip_ws(s, (q + 1) as nat);
                if p < q2 <= s.len() {
                    spec_skip_elements(s, q2)
                } else {
                    None
                }
            } else {
                None
            }
        } else {
            None
        },
        None => None,
        }
    }
}

/// Skips the `"key" : value` members after an opening brace, up to and
/// past the closing brace.
pub open spec fn spec_skip_members(s: Seq<u8>, p: nat) -> Option<nat>
    decreases 2 * (s.len() - p) + 1,
{
    if p > s.len() {
        None
    } else {
        match spec_parse_string(s, p) {
        Some((k, p2)) => if p < p2 <= s.len() {
            let q = spec_skip_ws(s, p2);
            if q < s.len() && s[q as int] == 58 {
                let q2 = spec_skip_ws(s, (q + 1) as nat);
                if p < q2 <= s.len() {
                    match spec_skip_value(s, q2) {
                        Some(p3) => if p < p3 <= s.len() {
                            let q3 = spec_skip_ws(s, p3);
                            if q3 < s.len() && s[q3 as int] == 125 {
                                Some((q3 + 1) as nat)
                            } else if q3 < s.len() && s[q3 as int] == 44 {
                                let q4 = spec_skip_ws(s, (q3 + 1) as nat);
                                if p < q4 <= s.len() {
                                    spec_skip_members(s, q4)
                                } else {
                                    None
                                }
                            } else {
                                None
                            }
                        } else {
                            None
                        },
                        None => None,
                    }
                } else {
                    None
                }
            } else {
                None
            }
        } else {
            None
        },
        None => None,
        }
    }
}

/// One or more `"key" : value` pairs separated by commas, closed by `}`;
/// yields the pairs whose value is an array of quoted strings, in order,
/// and the position after the brace.  A pair of any other value shape is
/// passed over, so a document may carry fields this library does not read.
pub open spec fn spec_parse_pairs(s: Seq<u8>, p: nat) -> Option<(Seq<(Seq<u8>, Seq<Seq<u8>>)>, nat)>
    decreases s.len() - p,
{
    match spec_parse_string(s, p) {
        Some((key, p2)) => if p < p2 <= s.len() {
            let q = spec_skip_ws(s, p2);
            if q < s.len() && s[q as int] == 58 {
                let q2 = spec_skip_ws(s, (q + 1) as nat);
                match spec_parse_array(s, q2) {
                    Some((vals, p3)) => if p < p3 <= s.len() {
                        let q3 = spec_skip_ws(s, p3);
                        if q3 < s.len() && s[q3 as int] == 125 {
                            Some((Seq::empty().push((key, vals)), (q3 + 1) as nat))
                        } else if q3 < s.len() && s[q3 as int] == 44 {
                            let q4 = spec_skip_ws(s, (q3 + 1) as nat);
                            if p < q4 <= s.len() {
                                match spec_parse_pairs(s, q4) {
                                    Some((rest, p4)) => Some(
                                        (Seq::empty().push((key, vals)) + rest, p4),
                                    ),
                                    None => None,
                                }
                            } else {
                                None
                            }
                        } else {
                            None
                        }
                    } else {
                        None
                    },
                    None => match spec_skip_value(s, q2) {
                        Some(p3) => if p < p3 <= s.len() {
                            let q3 = spec_skip_ws(s, p3);
                            if q3 < s.len() && s[q3 as int] == 125 {
                                Some((Seq::empty(), (q3 + 1) as nat))
                            } else if q3 < s.len() && s[q3 as int] == 44 {
                                let q4 = spec_skip_ws(s, (q3 + 1) as nat);
                                if p < q4 <= s.len() {
                                    spec_parse_pairs(s, q4)
                                } else {
                                    None
                                }
                            } else {
                                None
                            }
                        } else {
                            None
                        },
                        None => None,
                    },
                }
            } else {
                None
            }
        } else {
            None
        },
        None => None,
    }
}

/// A whole key document: an object of pairs with nothing but whitespace
/// around it.
pub open spec fn spec_parse_doc(s: Seq<u8>) -> Option<Seq<(Seq<u8>, Seq<Seq<u8>>)>> {
    let p = spec_skip_ws(s, 0);
    if p < s.len() && s[p as int] == 123 {
        let q = spec_skip_ws(s, (p + 1) as nat);
        if q < s.len() && s[q as int] == 125 {
            if spec_skip_ws(s, (q + 1) as nat) == s.len() {
                Some(Seq::empty())
            } else {
                None
            }
        } else {
            match spec_parse_pairs(s, q) {
                Some((pairs, p2)) => if spec_skip_ws(s, p2) == s.len() {
                    Some(pairs)
                } else {
                    None
                },
                None => None,
            }
        }
    } else {
        None
    }
}

/// Reads the comma-separated strings after an opening bracket.
fn parse_items(s: &[u8], p: usize) -> (r: Option<(Vec<Vec<u8>>, usize)>)
    requires
        p <= s@.len(),
    ensures
        r is Some <==> spec_parse_items(s@, p as nat) is Some,
        r matches Some(v) ==> spec_parse_items(s@, p as nat) == Some((vecs_view(v.0@), v.1 as nat))
            && p < v.1 <= s@.len(),
    decreases s@.len() - p,
{
    let n: usize = s.len();
    match parse_string(s, p) {
        None => None,
        Some((v, p2)) => {
            let ghost gv = v@;
            let q = skip_ws(s, p2);
            if q < n && s[q] == 93 {
                let mut items: Vec<Vec<u8>> = Vec::new();
                items.push(v);
                proof {
                    assert(vecs_view(items@) =~= Seq::empty().push(gv));
                }
                Some((items, q + 1))
            } else if q < n && s[q] == 44 {
                let q2 = skip_ws(s, q + 1);
                match parse_items(s, q2) {
                    None => None,
                    Some((mut rest, p3)) => {
                        let ghost grest = rest@;
                        let mut items: Vec<Vec<u8>> = Vec::new();
                        items.push(v);
                        items.append(&mut rest);
                        proof {
                            assert(vecs_view(items@) =~= Seq::empty().push(gv) + vecs_view(grest));
                        }
                        Some((items, p3))
                    },
                }
            } else {
                None
            }
        },
    }
}

/// Reads a bracketed array of strings.
fn parse_array(s: &[u8], p: usize) -> (r: Option<(Vec<Vec<u8>>, usize)>)
    requires
        p <= s@.len(),
    ensures
        r is Some <==> spec_parse_array(s@, p as nat) is Some,
        r matches Some(v) ==> spec_parse_array(s@, p as nat) == Some((vecs_view(v.0@), v.1 as nat))
            && p < v.1 <= s@.len(),
{
    let n: usize = s.len();
    if p >= n || s[p] != 91 {
        return None;
    }
    let q = skip_ws(s, p + 1);
    if q < n && s[q] == 93 {
        let items: Vec<Vec<u8>> = Vec::new();
        proof {
            assert(vecs_view(items@) =~= Seq::<Seq<u8>>::empty());
        }
        Some((items, q + 1))
    } else {
        parse_items(s, q)
    }
}

/// Reads the pairs of an object after its opening brace.
/// Advances past the run of scalar bytes starting at `p`.
fn scalar_end(s: &[u8], p: usize) -> (r: usize)
    requires
        p <= s@.len(),
    ensures
        r == spec_scalar_end(s@, p as nat),
        p <= r <= s@.len(),
{
    let n: usize = s.len();
    let mut q = p;
    while q < n && !(s[q] == 32 || s[q] == 9 || s[q] == 10 || s[q] == 13 || s[q] == 34 || s[q]
        == 44 || s[q] == 58 || s[q] == 91 || s[q] == 93 || s[q] == 123 || s[q] == 125)
        invariant
            n == s@.len(),
            p <= q <= n,
            spec_scalar_end(s@, p as nat) == spec_scalar_end(s@, q as nat),
        decreases n - q,
    {
        q = q + 1;
    }
    q
}

/// Skips one value of any shape.
fn skip_value(s: &[u8], p: usize) -> (r: Option<usize>)
    requires
        p <= s@.len(),
    ensures
        r is Some <==> spec_skip_value(s@, p as nat) is Some,
        r matches Some(p2) ==> spec_skip_value(s@, p as nat) == Some(p2 as nat) && p2 <= s@.len(),
    decreases 2 * (s@.len() - p),
{
    let n: usize = s.len();
    if p >= n {
        None
    } else if s[p] == 34 {
        match parse_string(s, p) {
            Some((v, p2)) => Some(p2),
            None => None,
        }
    } else if s[p] == 91 {
        let q = skip_ws(s, p + 1);
        if q < n && s[q] == 93 {
            Some(q + 1)
        } else {
            skip_elements(s, q)
        }
    } else if s[p] == 123 {
        let q = skip_ws(s, p + 1);
        if q < n && s[q] == 125 {
            Some(q + 1)
        } else {
            skip_members(s, q)
        }
    } else if !(s[p] == 32 || s[p] == 9 || s[p] == 10 || s[p] == 13 || s[p] == 44 || s[p] == 58
        || s[p] == 93 || s[p] == 125) {
        Some(scalar_end(s, p))
    } else {
        None
    }
}

/// Skips the comma-separated values of a bracketed array.
fn skip_elements(s: &[u8], p: usize) -> (r: Option<usize>)
    requires
        p <= s@.len(),
    ensures
        r is Some <==> spec_skip_elements(s@, p as nat) is Some,
        r matches Some(p2) ==> spec_skip_elements(s@, p as nat) == Some(p2 as nat) && p2
            <= s@.len(),
    decreases 2 * (s@.len() - p) + 1,
{
    let n: usize = s.len();
    match skip_value(s, p) {
        None => None,
        Some(p2) => {
            if p2 <= p {
                proof {
                    assert(spec_skip_elements(s@, p as nat) is None);
                }
                return None;
            }
            let q = skip_ws(s, p2);
            if q < n && s[q] == 93 {
                Some(q + 1)
            } else if q < n && s[q] == 44 {
                let q2 = skip_ws(s, q + 1);
                skip_elements(s, q2)
            } else {
                None
            }
        },
    }
}

/// Skips the `"key" : value` members of a braced object.
fn skip_members(s: &[u8], p: usize) -> (r: Option<usize>)
    requires
        p <= s@.len(),
    ensures
        r is Some <==> spec_skip_members(s@, p as nat) is Some,
        r matches Some(p2) ==> spec_skip_members(s@, p as nat) == Some(p2 as nat) && p2
            <= s@.len(),
    decreases 2 * (s@.len() - p) + 1,
{
    let n: usize = s.len();
    match parse_string(s, p) {
        None => None,
        Some((k, p2)) => {
            let q = skip_ws(s, p2);
            if q < n && s[q] == 58 {
                let q2 = skip_ws(s, q + 1);
                match skip_value(s, q2) {
                    None => None,
                    Some(p3) => {
                        if p3 <= p {
                            proof {
                                assert(spec_skip_members(s@, p as nat) is None);
                            }
                            return None;
                        }
                        let q3 = skip_ws(s, p3);
                        if q3 < n && s[q3] == 125 {
                            Some(q3 + 1)
                        } else if q3 < n && s[q3] == 44 {
                            let q4 = skip_ws(s, q3 + 1);
                            skip_members(s, q4)
                        } else {
                            None
                        }
                    },
                }
            } else {
                None
            }
        },
    }
}

fn parse_pairs(s: &[u8], p: usize) -> (r: Option<(Vec<(Vec<u8>, Vec<Vec<u8>>)>, usize)>)
    requires
        p <= s@.len(),
    ensures
        r is Some <==> spec_parse_pairs(s@, p as nat) is Some,
        r matches Some(v) ==> spec_parse_pairs(s@, p as nat) == Some((pair_vals(v.0@), v.1 as nat))
            && p < v.1 <= s@.len(),
    decreases s@.len() - p,
{
    let n: usize = s.len();
    match parse_string(s, p) {
        None => None,
        Some((key, p2)) => {
            let ghost gkey = key@;
            let q = skip_ws(s, p2);
            if q < n && s[q] == 58 {
                let q2 = skip_ws(s, q + 1);
                match parse_array(s, q2) {
                    None => match skip_value(s, q2) {
                        None => None,
                        Some(p3) => {
                            if p3 <= p {
                                proof {
                                    assert(spec_parse_pairs(s@, p as nat) is None);
                                }
                                return None;
                            }
                            let q3 = skip_ws(s, p3);
                            if q3 < n && s[q3] == 125 {
                                let pairs: Vec<(Vec<u8>, Vec<Vec<u8>>)> = Vec::new();
                                proof {
                                    assert(pair_vals(pairs@) =~= Seq::<(
                                        Seq<u8>,
                                        Seq<Seq<u8>>,
                                    )>::empty());
                                }
                                Some((pairs, q3 + 1))
                            } else if q3 < n && s[q3] == 44 {
                                let q4 = skip_ws(s, q3 + 1);
                                parse_pairs(s, q4)
                            } else {
                                None
                            }
                        },
                    },
                    Some((vals, p3)) => {
                        let ghost gvals = vecs_view(vals@);
                        let q3 = skip_ws(s, p3);
                        if q3 < n && s[q3] == 125 {
                            let mut pairs: Vec<(Vec<u8>, Vec<Vec<u8>>)> = Vec::new();
                            pairs.push((key, vals));
                            proof {
                                assert(pair_vals(pairs@) =~= Seq::empty().push((gkey, gvals)));
                            }
                            Some((pairs, q3 + 1))
                        } else if q3 < n && s[q3] == 44 {
                            let q4 = skip_ws(s, q3 + 1);
                            match parse_pairs(s, q4) {
                                None => None,
                                Some((mut rest, p4)) => {
                                    let ghost grest = rest@;
                                    let mut pairs: Vec<(Vec<u8>, Vec<Vec<u8>>)> = Vec::new();
                                    pairs.push((key, vals));
                                    pairs.append(&mut rest);
                                    proof {
                                        assert(pair_vals(pairs@) =~= Seq::empty().push(
                                            (gkey, gvals),
                                        ) + pair_vals(grest));
                                    }
                                    Some((pairs, p4))
                                },
                            }
                        } else {
                            None
                        }
                    },
                }
            } else {
                None
            }
        },
    }
}

/// Reads a whole key document.
fn parse_doc(s: &[u8]) -> (r: Option<Vec<(Vec<u8>, Vec<Vec<u8>>)>>)
    ensures
        r is Some <==> spec_parse_doc(s@) is Some,
        r matches Some(v) ==> spec_parse_doc(s@) == Some(pair_vals(v@)),
{
    let n: usize = s.len();
    let p = skip_ws(s, 0);
    if p >= n || s[p] != 123 {
        return None;
    }
    let q = skip_ws(s, p + 1);
    if q < n && s[q] == 125 {
        if skip_ws(s, q + 1) == n {
            let pairs: Vec<(Vec<u8>, Vec<Vec<u8>>)> = Vec::new();
            proof {
                assert(pair_vals(pairs@) =~= Seq::<(Seq<u8>, Seq<Seq<u8>>)>::empty());
            }
            Some(pairs)
        } else {
            None
        }
    } else {
        match parse_pairs(s, q) {
            None => None,
            Some((pairs, p2)) => {
                if skip_ws(s, p2) == n {
                    Some(pairs)
                } else {
                    None
                }
            },
        }
    }
}

// ---------------------------------------------------------------------------
// key assembly
// ---------------------------------------------------------------------------

/// The verifying key: the four fixed points and the ordered
/// `gamma_abc_g1` list, one entry per public input plus one.
#[derive(Clone, PartialEq, Eq, Debug)]
pub struct VerifyingKey {
    pub alpha_g1: G1Point,
    pub beta_g2: G2Point,
    pub gamma_g2: G2Point,
    pub delta_g2: G2Point,
    pub gamma_abc_g1: Vec<G1Point>,
}

/// Mathematical view of a verifying key.
pub ghost struct VkVal {
    pub alpha: G1Val,
    pub beta: G2Val,
    pub gamma: G2Val,
    pub delta: G2Val,
    pub ic: Seq<G1Val>,
}

/// The views of a sequence of G1 points.
pub open spec fn g1_vals(s: Seq<G1Point>) -> Seq<G1Val> {
    s.map_values(|p: G1Point| p@)
}

impl View for VerifyingKey {
    type V = VkVal;

    open spec fn view(&self) -> VkVal {
        VkVal {
            alpha: self.alpha_g1@,
            beta: self.beta_g2@,
            gamma: self.gamma_g2@,
            delta: self.delta_g2@,
            ic: g1_vals(self.gamma_abc_g1@),
        }
    }
}

/// The first pair with the given key, if any.
pub open spec fn spec_lookup(pairs: Seq<(Seq<u8>, Seq<Seq<u8>>)>, key: Seq<u8>) -> Option<
    Seq<Seq<u8>>,
>
    decreases pairs.len(),
{
    if pairs.len() == 0 {
        None
    } else if pairs[0].0 == key {
        Some(pairs[0].1)
    } else {
        spec_lookup(pairs.skip(1), key)
    }
}

pub open spec fn key_alpha() -> Seq<u8> {
    seq![97u8, 108u8, 112u8, 104u8, 97u8]
}

pub open spec fn key_beta() -> Seq<u8> {
    seq![98u8, 101u8, 116u8, 97u8]
}

pub open spec fn key_gamma() -> Seq<u8> {
    seq![103u8, 97u8, 109u8, 109u8, 97u8]
}

pub open spec fn key_delta() -> Seq<u8> {
    seq![100u8, 101u8, 108u8, 116u8, 97u8]
}

pub open spec fn key_ic() -> Seq<u8> {
    seq![73u8, 67u8]
}

/// A G1 point from one hex field: invalid hex is a parse error, a wrong
/// decoded length an encoding error.
pub open spec fn spec_g1_from_hex(h: Seq<u8>) -> Result<G1Val, KeyError> {
    match spec_hex_decode(h) {
        None => Err(KeyError::ParseError),
        Some(b) => match spec_decode_g1(b) {
            None => Err(KeyError::EncodingError),
            Some(p) => Ok(p),
        },
    }
}

/// A G2 point from one hex field.
pub open spec fn spec_g2_from_hex(h: Seq<u8>) -> Result<G2Val, KeyError> {
    match spec_hex_decode(h) {
        None => Err(KeyError::ParseError),
        Some(b) => match spec_decode_g2(b) {
            None => Err(KeyError::EncodingError),
            Some(p) => Ok(p),
        },
    }
}

/// The first element of the named field, which must be present and
/// non-empty.
pub open spec fn spec_field_first(pairs: Seq<(Seq<u8>, Seq<Seq<u8>>)>, key: Seq<u8>) -> Result<
    Seq<u8>,
    KeyError,
> {
    match spec_lookup(pairs, key) {
        None => Err(KeyError::ParseError),
        Some(arr) => if arr.len() == 0 {
            Err(KeyError::ParseError)
        } else {
            Ok(arr[0])
        },
    }
}

/// The ordered `gamma_abc_g1` points from the `IC` entries; the first
/// failing entry decides the error.
pub open spec fn spec_ic_points(entries: Seq<Seq<u8>>) -> Result<Seq<G1Val>, KeyError>
    decreases entries.len(),
{
    if entries.len() == 0 {
        Ok(Seq::empty())
    } else {
        match spec_g1_from_hex(entries[0]) {
            Err(e) => Err(e),
            Ok(p) => match spec_ic_points(entries.skip(1)) {
                Err(e) => Err(e),
                Ok(rest) => Ok(Seq::empty().push(p) + rest),
            },
        }
    }
}

/// The verifying key a well-formed document denotes.  The fields are read
/// in the order `alpha`, `beta`, `gamma`, `delta`, `IC`; the first failure
/// decides the error.
pub open spec fn spec_vk_from_pairs(pairs: Seq<(Seq<u8>, Seq<Seq<u8>>)>) -> Result<VkVal, KeyError> {
    match spec_field_first(pairs, key_alpha()) {
        Err(e) => Err(e),
        Ok(ah) => match spec_g1_from_hex(ah) {
            Err(e) => Err(e),
            Ok(alpha) => match spec_field_first(pairs, key_beta()) {
                Err(e) => Err(e),
                Ok(bh) => match spec_g2_from_hex(bh) {
                    Err(e) => Err(e),
                    Ok(beta) => match spec_field_first(pairs, key_gamma()) {
                        Err(e) => Err(e),
                        Ok(gh) => match spec_g2_from_hex(gh) {
                            Err(e) => Err(e),
                            Ok(gamma) => match spec_field_first(pairs, key_delta()) {
                                Err(e) => Err(e),
                                Ok(dh) => match spec_g2_from_hex(dh) {
                                    Err(e) => Err(e),
                                    Ok(delta) => match spec_lookup(pairs, key_ic()) {
                                        None => Err(KeyError::ParseError),
                                        Some(entries) => match spec_ic_points(entries) {
                                            Err(e) => Err(e),
                                            Ok(ic) => Ok(
                                                VkVal { alpha, beta, gamma, delta, ic },
                                            ),
                                        },
                                    },
                                },
                            },
                        },
                    },
                },
            },
        },
    }
}

/// What a key document denotes: a verifying key, or the error that
/// rejecting it gives.
pub open spec fn spec_parse_vk(s: Seq<u8>) -> Result<VkVal, KeyError> {
    match spec_parse_doc(s) {
        None => Err(KeyError::ParseError),
        Some(pairs) => spec_vk_from_pairs(pairs),
    }
}

/// Equality of a byte vector and a byte slice.
fn bytes_eq(a: &Vec<u8>, b: &[u8]) -> (r: bool)
    ensures
        r == (a@ == b@),
{
    let n: usize = a.len();
    if n != b.len() {
        proof {
            assert(a@.len() != b@.len());
        }
        return false;
    }
    let mut i: usize = 0;
    while i < n
        invariant
            n == a@.len(),
            n == b@.len(),
            i <= n,
            forall|j: int| 0 <= j < i ==> a@[j] == b@[j],
        decreases n - i,
    {
        if a[i] != b[i] {
            return false;
        }
        i = i + 1;
    }
    proof {
        assert(a@ =~= b@);
    }
    true
}

/// The index of the first pair with the given key.
fn lookup(pairs: &Vec<(Vec<u8>, Vec<Vec<u8>>)>, key: &[u8]) -> (r: Option<usize>)
    ensures
        r is Some <==> spec_lookup(pair_vals(pairs@), key@) is Some,
        r matches Some(ix) ==> ix < pairs@.len() && spec_lookup(pair_vals(pairs@), key@) == Some(
            vecs_view(pairs@[ix as int].1@),
        ),
{
    let n: usize = pairs.len();
    let mut j: usize = 0;
    proof {
        assert(pair_vals(pairs@).skip(0) =~= pair_vals(pairs@));
    }
    while j < n
        invariant
            n == pairs@.len(),
            j <= n,
            spec_lookup(pair_vals(pairs@), key@) == spec_lookup(
                pair_vals(pairs@).skip(j as int),
                key@,
            ),
        decreases n - j,
    {
        proof {
            assert(pair_vals(pairs@).skip(j as int)[0] == pair_vals(pairs@)[j as int]);
        }
        if bytes_eq(&pairs[j].0, key) {
            return Some(j);
        }
        proof {
            assert(pair_vals(pairs@).skip(j as int).skip(1) =~= pair_vals(pairs@).skip(
                j as int + 1,
            ));
        }
        j = j + 1;
    }
    proof {
        assert(pair_vals(pairs@).skip(n as int).len() == 0);
    }
    None
}

/// A G1 point from one hex field.
fn g1_from_hex(h: &Vec<u8>) -> (r: Result<G1Point, KeyError>)
    ensures
        r is Ok <==> spec_g1_from_hex(h@) is Ok,
        r matches Ok(p) ==> spec_g1_from_hex(h@) == Ok::<G1Val, KeyError>(p@),
        r matches Err(e) ==> spec_g1_from_hex(h@) == Err::<G1Val, KeyError>(e),
{
    match hex_decode(h.as_slice()) {
        None => Err(KeyError::ParseError),
        Some(b) => match decode_g1_point(b.as_slice()) {
            Err(_) => Err(KeyError::EncodingError),
            Ok(p) => Ok(p),
        },
    }
}

/// A G2 point from one hex field.
fn g2_from_hex(h: &Vec<u8>) -> (r: Result<G2Point, KeyError>)
    ensures
        r is Ok <==> spec_g2_from_hex(h@) is Ok,
        r matches Ok(p) ==> spec_g2_from_hex(h@) == Ok::<G2Val, KeyError>(p@),
        r matches Err(e) ==> spec_g2_from_hex(h@) == Err::<G2Val, KeyError>(e),
{
    match hex_decode(h.as_slice()) {
        None => Err(KeyError::ParseError),
        Some(b) => match decode_g2_point(b.as_slice()) {
            Err(_) => Err(KeyError::EncodingError),
            Ok(p) => Ok(p),
        },
    }
}

/// Parses a key document into a verifying key: exactly the key the
/// document denotes, or exactly the error that `spec_parse_vk` assigns it.
pub fn parse_verification_key(vk_bytes: &[u8]) -> (r: Result<VerifyingKey, KeyError>)
    ensures
        r is Ok <==> spec_parse_vk(vk_bytes@) is Ok,
        r matches Ok(k) ==> spec_parse_vk(vk_bytes@) == Ok::<VkVal, KeyError>(k@),
        r matches Err(e) ==> spec_parse_vk(vk_bytes@) == Err::<VkVal, KeyError>(e),
{
    let pairs = match parse_doc(vk_bytes) {
        None => {
            return Err(KeyError::ParseError);
        },
        Some(p) => p,
    };
    let ghost pv = pair_vals(pairs@);

    let alpha_key: Vec<u8> = vec![97u8, 108u8, 112u8, 104u8, 97u8];
    let beta_key: Vec<u8> = vec![98u8, 101u8, 116u8, 97u8];
    let gamma_key: Vec<u8> = vec![103u8, 97u8, 109u8, 109u8, 97u8];
    let delta_key: Vec<u8> = vec![100u8, 101u8, 108u8, 116u8, 97u8];
    let ic_key: Vec<u8> = vec![73u8, 67u8];
    proof {
        assert(alpha_key@ =~= key_alpha());
        assert(beta_key@ =~= key_beta());
        assert(gamma_key@ =~= key_gamma());
        assert(delta_key@ =~= key_delta());
        assert(ic_key@ =~= key_ic());
    }

    let alpha_g1 = match field_g1(&pairs, alpha_key.as_slice()) {
        Err(e) => {
            return Err(e);
        },
        Ok(p) => p,
    };
    let beta_g2 = match field_g2(&pairs, beta_key.as_slice()) {
        Err(e) => {
            return Err(e);
        },
        Ok(p) => p,
    };
    let gamma_g2 = match field_g2(&pairs, gamma_key.as_slice()) {
        Err(e) => {
            return Err(e);
        },
        Ok(p) => p,
    };
    let delta_g2 = match field_g2(&pairs, delta_key.as_slice()) {
        Err(e) => {
            return Err(e);
        },
        Ok(p) => p,
    };

    let ic_ix = match lookup(&pairs, ic_key.as_slice()) {
        None => {
            return Err(KeyError::ParseError);
        },
        Some(ix) => ix,
    };
    let entries = &pairs[ic_ix].1;
    let ghost ev = vecs_view(entries@);
    let m: usize = entries.len();
    let mut gamma_abc_g1: Vec<G1Point> = Vec::new();
    let mut j: usize = 0;
    proof {
        assert(ev.skip(0) =~= ev);
    }
    while j < m
        invariant
            m == entries@.len(),
            ev == vecs_view(entries@),
            spec_parse_vk(vk_bytes@) == (match spec_ic_points(ev) {
                Err(e) => Err::<VkVal, KeyError>(e),
                Ok(ic) => Ok::<VkVal, KeyError>(
                    VkVal {
                        alpha: alpha_g1@,
                        beta: beta_g2@,
                        gamma: gamma_g2@,
                        delta: delta_g2@,
                        ic,
                    },
                ),
            }),
            j <= m,
            gamma_abc_g1@.len() == j,
            (match spec_ic_points(ev.skip(j as int)) {
                Ok(rest) => spec_ic_points(ev) == Ok::<Seq<G1Val>, KeyError>(
                    g1_vals(gamma_abc_g1@) + rest,
                ),
                Err(e) => spec_ic_points(ev) == Err::<Seq<G1Val>, KeyError>(e),
            }),
        decreases m - j,
    {
        proof {
            assert(ev.skip(j as int)[0] == ev[j as int]);
            assert(ev.skip(j as int).skip(1) =~= ev.skip(j as int + 1));
        }
        match g1_from_hex(&entries[j]) {
            Err(e) => {
                return Err(e);
            },
            Ok(p) => {
                let ghost gacc = g1_vals(gamma_abc_g1@);
                gamma_abc_g1.push(p);
                proof {
                    assert(g1_vals(gamma_abc_g1@) =~= gacc.push(p@));
                    if let Ok(rest) = spec_ic_points(ev.skip(j as int + 1)) {
                        assert(gacc.push(p@) + rest =~= gacc + (Seq::empty().push(p@) + rest));
                    }
                }
            },
        }
        j = j + 1;
    }
    proof {
        assert(ev.skip(m as int).len() == 0);
        assert(g1_vals(gamma_abc_g1@) + Seq::<G1Val>::empty() =~= g1_vals(gamma_abc_g1@));
    }
    Ok(VerifyingKey { alpha_g1, beta_g2, gamma_g2, delta_g2, gamma_abc_g1 })
}

/// The G1 point of one named field.
fn field_g1(pairs: &Vec<(Vec<u8>, Vec<Vec<u8>>)>, key: &[u8]) -> (r: Result<G1Point, KeyError>)
    ensures
        ({
            let sp = match spec_field_first(pair_vals(pairs@), key@) {
                Err(e) => Err(e),
                Ok(h) => spec_g1_from_hex(h),
            };
            &&& (r is Ok <==> sp is Ok)
            &&& (r matches Ok(p) ==> sp == Ok::<G1Val, KeyError>(p@))
            &&& (r matches Err(e) ==> sp == Err::<G1Val, KeyError>(e))
        }),
{
    match lookup(pairs, key) {
        None => Err(KeyError::ParseError),
        Some(ix) => {
            let arr = &pairs[ix].1;
            if arr.len() == 0 {
                proof {
                    assert(vecs_view(arr@).len() == 0);
                }
                Err(KeyError::ParseError)
            } else {
                proof {
                    assert(vecs_view(arr@)[0] == arr@[0]@);
                }
                g1_from_hex(&arr[0])
            }
        },
    }
}

/// The G2 point of one named field.
fn field_g2(pairs: &Vec<(Vec<u8>, Vec<Vec<u8>>)>, key: &[u8]) -> (r: Result<G2Point, KeyError>)
    ensures
        ({
            let sp = match spec_field_first(pair_vals(pairs@), key@) {
                Err(e) => Err(e),
                Ok(h) => spec_g2_from_hex(h),
            };
            &&& (r is Ok <==> sp is Ok)
            &&& (r matches Ok(p) ==> sp == Ok::<G2Val, KeyError>(p@))
            &&& (r matches Err(e) ==> sp == Err::<G2Val, KeyError>(e))
        }),
{
    match lookup(pairs, key) {
        None => Err(KeyError::ParseError),
        Some(ix) => {
            let arr = &pairs[ix].1;
            if arr.len() == 0 {
                proof {
                    assert(vecs_view(arr@).len() == 0);
                }
                Err(KeyError::ParseError)
            } else {
                proof {
                    assert(vecs_view(arr@)[0] == arr@[0]@);
                }
                g2_from_hex(&arr[0])
            }
        },
    }
}

} // verus!


