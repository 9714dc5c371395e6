//! Canonical form of addresses, hashes and other hex identifiers.
//!
//! Every 32-byte identifier is normalized to `0x` followed by at least 64
//! lowercase hex digits before any equality test or dedup: an optional
//! `0x` prefix is stripped, uppercase hex digits are lowered, and the
//! digits are left-padded with `0` up to width 64.  Normalization is
//! idempotent, so records can be normalized again without changing keys.

use vstd::prelude::*;

verus! {

use vstd::utf8::is_ascii_chars;

/// Lowercase hexadecimal digit for a nibble value.
pub open spec fn hex_digit_char(n: int) -> char {
    seq!['0', '1', '2', '3', '4', '5', '6', '7', '8', '9', 'a', 'b', 'c', 'd', 'e', 'f'][n]
}

/// Lowercase hex encoding of a byte sequence: two digits per byte, high
/// nibble first.
pub open spec fn hex_of(bs: Seq<u8>) -> Seq<char>
    decreases bs.len(),
{
    if bs.len() == 0 {
        Seq::empty()
    } else {
        seq![
            hex_digit_char((bs.first() >> 4) as int),
            hex_digit_char((bs.first() & 0x0f) as int),
        ] + hex_of(bs.drop_first())
    }
}

/// Relies on hex::encode of the hex crate: it maps each input byte to two
/// lowercase hexadecimal digits, high nibble first.
#[verifier::external_body]
pub(crate) fn hex_encode(bytes: &[u8]) -> (r: String)
    ensures
        r@ == hex_of(bytes@),
{
    hex::encode(bytes)
}

/// Relies on String::from_utf8: a vector of ASCII bytes is valid UTF-8 and
/// becomes the string whose characters are exactly those bytes.
#[verifier::external_body]
pub(crate) fn string_from_ascii(v: Vec<u8>) -> (r: String)
    requires
        forall|i: int| 0 <= i < v@.len() ==> v@[i] < 128,
    ensures
        r@ == v@.map_values(|b: u8| b as char),
{
    String::from_utf8(v).unwrap()
}

/// An uppercase hex digit is lowered; every other character is kept.
pub open spec fn lower_hex(c: char) -> char {
    if 'A' <= c && c <= 'F' {
        (((c as u8) + 32) as u8) as char
    } else {
        c
    }
}

/// The identifier body: the characters after an optional `0x` prefix.
pub open spec fn strip_hex_prefix(s: Seq<char>) -> Seq<char> {
    if s.len() >= 2 && s[0] == '0' && s[1] == 'x' {
        s.skip(2)
    } else {
        s
    }
}

/// Left-pads a digit sequence with `0` up to width 64.
pub open spec fn zero_pad_64(s: Seq<char>) -> Seq<char> {
    if s.len() >= 64 {
        s
    } else {
        Seq::new((64 - s.len()) as nat, |i: int| '0') + s
    }
}

/// The canonical form of an ASCII identifier: `0x`, then the stripped,
/// lowercased body padded to 64 digits.  Non-ASCII input is left as it is;
/// it cannot name an on-chain entity.
pub open spec fn spec_standardize(s: Seq<char>) -> Seq<char> {
    if is_ascii_chars(s) {
        seq!['0', 'x'] + zero_pad_64(strip_hex_prefix(s).map_values(|c: char| lower_hex(c)))
    } else {
        s
    }
}

/// Byte-level mirror of `lower_hex`, used by the executable pass.
pub open spec fn lower_hex_byte(b: u8) -> u8 {
    if 65 <= b && b <= 70 {
        (b + 32) as u8
    } else {
        b
    }
}

proof fn lemma_lower_byte_matches(c: char)
    requires
        '\0' <= c <= '\u{7f}',
    ensures
        lower_hex_byte(c as u8) as char == lower_hex(c),
        '\0' <= lower_hex(c) <= '\u{7f}',
{
}

/// Normalizes an address, hash or table handle to its canonical form.
pub fn standardize_address(s: &str) -> (r: String)
    ensures
        r@ == spec_standardize(s@),
{
    if !s.is_ascii() {
        return s.to_owned();
    }
    broadcast use vstd::string::is_ascii_spec_bytes;

    let bytes: Vec<u8> = s.as_bytes_vec();
    assert(bytes@ =~= Seq::new(s@.len(), |i: int| s@[i] as u8));
    let body_start: usize = if bytes.len() >= 2 && bytes[0] == 48 && bytes[1] == 120 {
        2
    } else {
        0
    };
    assert(body_start == 2 ==> s@[0] == '0' && s@[1] == 'x');
    assert(body_start == 0 && s@.len() >= 2 ==> !(s@[0] == '0' && s@[1] == 'x'));
    let body_len: usize = bytes.len() - body_start;

    let mut out: Vec<u8> = Vec::new();
    out.push(48);
    out.push(120);
    let mut pad: usize = 0;
    let pad_total: usize = if body_len >= 64 {
        0
    } else {
        64 - body_len
    };
    while pad < pad_total
        invariant
            pad <= pad_total,
            out@.len() == 2 + pad,
            out@[0] == 48u8,
            out@[1] == 120u8,
            forall|j: int| 2 <= j < out@.len() ==> out@[j] == 48u8,
        decreases pad_total - pad,
    {
        out.push(48);
        pad = pad + 1;
    }
    let mut i: usize = body_start;
    while i < bytes.len()
        invariant
            body_start <= i <= bytes@.len(),
            body_start == 0 || body_start == 2,
            body_start <= bytes@.len(),
            bytes@ == Seq::new(s@.len(), |k: int| s@[k] as u8),
            is_ascii_chars(s@),
            out@.len() == 2 + pad_total + (i - body_start),
            out@[0] == 48u8,
            out@[1] == 120u8,
            forall|j: int| 2 <= j < 2 + pad_total ==> out@[j] == 48u8,
            forall|t: int|
                0 <= t < i - body_start ==> #[trigger] out@[2 + pad_total + t] == lower_hex_byte(
                    bytes@[body_start + t],
                ),
        decreases bytes@.len() - i,
    {
        let b = bytes[i];
        let lowered: u8 = if 65 <= b && b <= 70 {
            b + 32
        } else {
            b
        };
        out.push(lowered);
        i = i + 1;
    }
    assert forall|j: int| 0 <= j < out@.len() implies out@[j] < 128 by {
        if j >= 2 + pad_total {
            let t = j - 2 - pad_total;
            assert(out@[2 + pad_total + t] == lower_hex_byte(bytes@[body_start + t]));
            assert(out@[j] == out@[2 + pad_total + t]);
            assert(bytes@[body_start + t] == s@[body_start + t] as u8);
            assert('\0' <= s@[body_start + t] <= '\u{7f}');
        }
    }
    let r = string_from_ascii(out);
    proof {
        let strip = strip_hex_prefix(s@);
        assert(strip =~= if body_start == 2 {
            s@.skip(2)
        } else {
            s@
        });
        assert(strip.len() == body_len);
        let lowered = strip.map_values(|c: char| lower_hex(c));
        let padded = zero_pad_64(lowered);
        let expected = spec_standardize(s@);
        assert(expected == seq!['0', 'x'] + padded);
        assert(padded.len() == 2 + pad_total + body_len - 2);
        assert forall|j: int| 0 <= j < r@.len() implies r@[j] == expected[j] by {
            assert(r@[j] == out@[j] as char);
            if j == 0 {
                assert(out@[0] == 48u8);
            } else if j == 1 {
                assert(out@[1] == 120u8);
            } else if j < 2 + pad_total {
                assert(out@[j] == 48u8);
                assert(padded[j - 2] == '0');
            } else {
                let t = j - 2 - pad_total;
                assert(out@[2 + pad_total + t] == lower_hex_byte(bytes@[body_start + t]));
                assert(out@[j] == out@[2 + pad_total + t]);
                assert(bytes@[body_start + t] == s@[body_start + t] as u8);
                assert(strip[t] == s@[body_start + t]);
                lemma_lower_byte_matches(strip[t]);
                assert(lowered[t] == lower_hex(strip[t]));
                assert(padded[j - 2] == lowered[t]);
            }
        }
        assert(r@ =~= expected);
    }
    r
}

/// Normalization is idempotent: the canonical form of a canonical form is
/// itself.
pub proof fn lemma_standardize_idempotent(s: Seq<char>)
    ensures
        spec_standardize(spec_standardize(s)) == spec_standardize(s),
{
    if is_ascii_chars(s) {
        let body = strip_hex_prefix(s).map_values(|c: char| lower_hex(c));
        let padded = zero_pad_64(body);
        let t = spec_standardize(s);
        assert(t == seq!['0', 'x'] + padded);
        assert forall|i: int| 0 <= i < padded.len() implies '\0' <= #[trigger] padded[i]
            <= '\u{7f}' && lower_hex(padded[i]) == padded[i] by {
            if body.len() >= 64 {
                assert(padded[i] == body[i]);
                lemma_lower_byte_matches(strip_hex_prefix(s)[i]);
            } else if i >= 64 - body.len() {
                let k = i - (64 - body.len());
                assert(padded[i] == body[k]);
                lemma_lower_byte_matches(strip_hex_prefix(s)[k]);
            } else {
                assert(padded[i] == '0');
            }
        }
        assert(is_ascii_chars(t));
        assert(t[0] == '0' && t[1] == 'x');
        assert(strip_hex_prefix(t) =~= padded);
        assert(padded.map_values(|c: char| lower_hex(c)) =~= padded);
        assert(padded.len() >= 64);
        assert(zero_pad_64(padded) == padded);
        assert(spec_standardize(t) =~= t);
    }
}

/// Normalizing a key keeps it a member of the normalized key set: dedup on
/// canonical forms never loses an element.
pub proof fn lemma_standardize_preserves_membership(s: Seq<char>, keys: Set<Seq<char>>)
    requires
        keys.contains(s),
    ensures
        keys.map(|k: Seq<char>| spec_standardize(k)).contains(spec_standardize(s)),
{
}

} // verus!
