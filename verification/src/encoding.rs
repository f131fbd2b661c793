//! The one fixed byte-to-text scheme of the store: lowercase hex. Every
//! write path and every read path uses exactly this module, so a record
//! written by one command is always readable by the others.

use vstd::prelude::*;

use crate::types::{plain_char, plain_str};

verus! {

/// The byte of the hex digit for a value below 16: `0`..`9`, then `a`..`f`.
pub open spec fn hex_digit_byte(v: u8) -> u8
    recommends
        v < 16,
{
    if v < 10 {
        (0x30 + v) as u8
    } else {
        (0x57 + v) as u8
    }
}

/// The hex digit character for a value below 16.
pub open spec fn hex_digit(v: u8) -> char
    recommends
        v < 16,
{
    hex_digit_byte(v) as char
}

/// The lowercase hex rendering of a byte sequence: two digits per byte,
/// high digit first.
pub open spec fn hex_of(b: Seq<u8>) -> Seq<char> {
    Seq::new(
        2 * b.len(),
        |i: int| if i % 2 == 0 {
            hex_digit(b[i / 2] / 16)
        } else {
            hex_digit(b[i / 2] % 16)
        },
    )
}

/// The value of one hex digit character, upper or lower case, or -1.
pub open spec fn hex_val_char(c: char) -> int {
    let v = c as int;
    if 0x30 <= v <= 0x39 {
        v - 0x30
    } else if 0x61 <= v <= 0x66 {
        v - 0x57
    } else if 0x41 <= v <= 0x46 {
        v - 0x37
    } else {
        -1
    }
}

/// A string that decodes as hex: even length, digits throughout.
pub open spec fn valid_hex(s: Seq<char>) -> bool {
    s.len() % 2 == 0 && forall|i: int| 0 <= i < s.len() ==> hex_val_char(#[trigger] s[i]) >= 0
}

/// The bytes a hex string stands for.
pub open spec fn hex_val(s: Seq<char>) -> Seq<u8>
    recommends
        valid_hex(s),
{
    Seq::new(
        s.len() / 2,
        |i: int| (hex_val_char(s[2 * i]) * 16 + hex_val_char(s[2 * i + 1])) as u8,
    )
}

/// Relies on std's `String::from_utf8`: bytes below 0x80 are valid UTF-8
/// and decode to the characters with the same code points.
#[verifier::external_body]
pub(crate) fn ascii_to_string(bytes: Vec<u8>) -> (r: String)
    requires
        forall|i: int| 0 <= i < bytes@.len() ==> bytes@[i] < 0x80,
    ensures
        r@ == bytes@.map_values(|b: u8| b as char),
{
    String::from_utf8(bytes).unwrap()
}

fn hex_ascii(v: u8) -> (r: u8)
    requires
        v < 16,
    ensures
        r == hex_digit_byte(v),
        r < 0x80,
{
    if v < 10 {
        0x30 + v
    } else {
        0x57 + v
    }
}

/// Encode bytes as lowercase hex text.
pub fn hex_encode(bytes: &[u8]) -> (r: String)
    ensures
        r@ == hex_of(bytes@),
{
    let n = bytes.len();
    let mut out: Vec<u8> = Vec::new();
    let mut i: usize = 0;
    while i < n
        invariant
            n == bytes@.len(),
            i <= n,
            out@.len() == 2 * i,
            forall|j: int|
                0 <= j < out@.len()
                    ==> #[trigger] out@[j] == hex_digit_byte(
                        if j % 2 == 0 { bytes@[j / 2] / 16 } else { bytes@[j / 2] % 16 },
                    ) && out@[j] < 0x80,
        decreases n - i,
    {
        let b = bytes[i];
        out.push(hex_ascii(b / 16));
        out.push(hex_ascii(b % 16));
        i += 1;
    }
    let r = ascii_to_string(out);
    proof {
        assert(r@ =~= hex_of(bytes@));
    }
    r
}

fn hex_val_byte(b: u8) -> (r: u8)
    ensures
        (r == 0xff) == (hex_val_char(b as char) < 0),
        r != 0xff ==> r == hex_val_char(b as char) && r < 16,
{
    if 0x30 <= b && b <= 0x39 {
        b - 0x30
    } else if 0x61 <= b && b <= 0x66 {
        b - 0x57
    } else if 0x41 <= b && b <= 0x46 {
        b - 0x37
    } else {
        0xff
    }
}

/// Decode hex text back to bytes; absent exactly when the text is not
/// well-formed hex (odd length, or a character that is no hex digit).
pub fn hex_decode(s: &str) -> (r: Option<Vec<u8>>)
    ensures
        (r is Some) == valid_hex(s@),
        r matches Some(v) ==> v@ == hex_val(s@),
{
    if !s.is_ascii() {
        proof {
            let i = choose|i: int| 0 <= i < s@.len() && !('\0' <= #[trigger] s@[i] <= '\u{7f}');
            assert(hex_val_char(s@[i]) < 0);
        }
        return None;
    }
    proof {
        broadcast use vstd::string::is_ascii_spec_bytes;

    }
    let bytes = s.as_bytes();
    let n = bytes.len();
    assert(forall|i: int| 0 <= i < n ==> bytes@[i] == s@[i] as u8);
    assert(forall|i: int|
        0 <= i < n ==> (#[trigger] bytes@[i]) as char == s@[i]) by {
        assert(forall|i: int|
            0 <= i < n ==> s@[i] <= '\u{7f}' && bytes@[i] == (#[trigger] s@[i]) as u8);
    }
    if n % 2 != 0 {
        return None;
    }
    let half = n / 2;
    let mut out: Vec<u8> = Vec::new();
    let mut i: usize = 0;
    while i < half
        invariant
            n == bytes@.len() == s@.len(),
            n % 2 == 0,
            half == n / 2,
            i <= half,
            out@.len() == i,
            forall|j: int| 0 <= j < n ==> (#[trigger] bytes@[j]) as char == s@[j],
            forall|j: int| 0 <= j < 2 * i ==> hex_val_char(#[trigger] s@[j]) >= 0,
            forall|j: int| 0 <= j < i ==> #[trigger] out@[j] == hex_val(s@)[j],
        decreases half - i,
    {
        let hi = hex_val_byte(bytes[2 * i]);
        let lo = hex_val_byte(bytes[2 * i + 1]);
        if hi == 0xff || lo == 0xff {
            return None;
        }
        out.push(hi * 16 + lo);
        proof {
            assert(hex_val(s@)[i as int] == (hex_val_char(s@[2 * i]) * 16 + hex_val_char(
                s@[2 * i + 1],
            )) as u8);
        }
        i += 1;
    }
    proof {
        assert(out@ =~= hex_val(s@));
    }
    Some(out)
}

/// Decoding inverts encoding: the hex text of any byte sequence is valid
/// hex and stands for exactly that sequence.
pub proof fn lemma_hex_round_trip(b: Seq<u8>)
    ensures
        valid_hex(hex_of(b)),
        hex_val(hex_of(b)) == b,
{
    assert forall|i: int| 0 <= i < hex_of(b).len() implies hex_val_char(
        #[trigger] hex_of(b)[i],
    ) >= 0 by {
        lemma_hex_digit_val(if i % 2 == 0 {
            b[i / 2] / 16
        } else {
            b[i / 2] % 16
        });
    }
    assert forall|i: int| 0 <= i < b.len() implies #[trigger] hex_val(hex_of(b))[i] == b[i] by {
        lemma_hex_digit_val(b[i] / 16);
        lemma_hex_digit_val(b[i] % 16);
        assert(hex_of(b)[2 * i] == hex_digit(b[i] / 16));
        assert(hex_of(b)[2 * i + 1] == hex_digit(b[i] % 16));
    }
    assert(hex_val(hex_of(b)) =~= b);
}

/// A hex digit character decodes to the value it was made from.
proof fn lemma_hex_digit_val(v: u8)
    requires
        v < 16,
    ensures
        hex_val_char(hex_digit(v)) == v as int,
        plain_char(hex_digit(v)),
{
}

/// Hex text is made of plain printable characters, fit for the persisted
/// document.
pub proof fn lemma_hex_plain(b: Seq<u8>)
    ensures
        plain_str(hex_of(b)),
{
    assert forall|i: int| 0 <= i < hex_of(b).len() implies plain_char(
        #[trigger] hex_of(b)[i],
    ) by {
        lemma_hex_digit_val(if i % 2 == 0 {
            b[i / 2] / 16
        } else {
            b[i / 2] % 16
        });
    }
}

} // verus!
