//! Text renderings of bytes: lower-case hexadecimal for digests and the
//! standard Base64 alphabet (with padding) for everything that goes into a
//! file or a datagram.
use base64::prelude::BASE64_STANDARD;
use base64::Engine;
use vstd::prelude::*;

verus! {

/// The lower-case hexadecimal digit for a value below sixteen.
pub open spec fn hex_digit(v: int) -> char {
    if v < 10 {
        (('0' as int) + v) as char
    } else {
        (('a' as int) + v - 10) as char
    }
}

/// Two lower-case hexadecimal digits per byte, high nibble first.
pub open spec fn hex_lower(bytes: Seq<u8>) -> Seq<char>
    decreases bytes.len(),
{
    if bytes.len() == 0 {
        Seq::empty()
    } else {
        seq![hex_digit(bytes[0] as int / 16), hex_digit(bytes[0] as int % 16)] + hex_lower(
            bytes.drop_first(),
        )
    }
}

/// The bytes of an ASCII text, one per character.
pub open spec fn ascii_bytes(text: Seq<char>) -> Seq<u8> {
    text.map_values(|c: char| c as u8)
}

/// Where the two digits of each byte stand in its hexadecimal text.
pub proof fn lemma_hex_lower_digits(bytes: Seq<u8>)
    ensures
        hex_lower(bytes).len() == 2 * bytes.len(),
        forall|k: int|
            0 <= k < bytes.len() ==> hex_lower(bytes)[2 * k] == hex_digit(#[trigger] bytes[k] as int / 16)
                && hex_lower(bytes)[2 * k + 1] == hex_digit(bytes[k] as int % 16),
    decreases bytes.len(),
{
    if bytes.len() > 0 {
        let rest = bytes.drop_first();
        lemma_hex_lower_digits(rest);
        assert forall|k: int| 0 <= k < bytes.len() implies hex_lower(bytes)[2 * k] == hex_digit(
            #[trigger] bytes[k] as int / 16,
        ) && hex_lower(bytes)[2 * k + 1] == hex_digit(bytes[k] as int % 16) by {
            if k > 0 {
                assert(bytes[k] == rest[k - 1]);
                assert(2 * k == 2 * (k - 1) + 2);
            }
        }
    }
}

/// The ASCII byte of the lower-case hexadecimal digit of a value below
/// sixteen.
fn hex_digit_byte(v: u8) -> (b: u8)
    requires
        v < 16,
    ensures
        b == hex_digit(v as int) as u8,
{
    if v < 10 {
        48 + v
    } else {
        87 + v
    }
}

/// The lower-case hexadecimal text of bytes, as ASCII bytes: what
/// `hex::encode` writes, two digits per byte, high nibble first.
pub fn hex_ascii(bytes: &[u8]) -> (out: Vec<u8>)
    ensures
        out@ == ascii_bytes(hex_lower(bytes@)),
{
    proof {
        lemma_hex_lower_digits(bytes@);
    }
    let ghost text = hex_lower(bytes@);
    let mut out: Vec<u8> = Vec::new();
    let mut i: usize = 0;
    while i < bytes.len()
        invariant
            i <= bytes@.len(),
            text == hex_lower(bytes@),
            text.len() == 2 * bytes@.len(),
            forall|k: int|
                0 <= k < bytes@.len() ==> text[2 * k] == hex_digit(#[trigger] bytes@[k] as int / 16)
                    && text[2 * k + 1] == hex_digit(bytes@[k] as int % 16),
            out@ == ascii_bytes(text).subrange(0, 2 * i as int),
        decreases bytes@.len() - i,
    {
        let b = bytes[i];
        let hi = hex_digit_byte(b / 16);
        let lo = hex_digit_byte(b % 16);
        assert(text[2 * i as int] == hex_digit(bytes@[i as int] as int / 16));
        out.push(hi);
        out.push(lo);
        i += 1;
        assert(out@ =~= ascii_bytes(text).subrange(0, 2 * i as int));
    }
    assert(ascii_bytes(text).subrange(0, 2 * i as int) =~= ascii_bytes(text));
    out
}

/// The character of the standard Base64 alphabet for a six-bit value.
pub open spec fn base64_digit(v: int) -> u8 {
    if v < 26 {
        (65 + v) as u8
    } else if v < 52 {
        (97 + v - 26) as u8
    } else if v < 62 {
        (48 + v - 52) as u8
    } else if v == 62 {
        43u8
    } else {
        47u8
    }
}

/// The padding character `=`.
pub open spec fn base64_pad() -> u8 {
    61u8
}

/// Standard Base64 with padding: every three bytes become four characters,
/// a final group of one or two bytes is padded with `=` to four characters.
pub open spec fn base64_of(s: Seq<u8>) -> Seq<u8>
    decreases s.len(),
{
    if s.len() == 0 {
        Seq::empty()
    } else if s.len() == 1 {
        seq![
            base64_digit(s[0] as int / 4),
            base64_digit((s[0] as int % 4) * 16),
            base64_pad(),
            base64_pad(),
        ]
    } else if s.len() == 2 {
        seq![
            base64_digit(s[0] as int / 4),
            base64_digit((s[0] as int % 4) * 16 + s[1] as int / 16),
            base64_digit((s[1] as int % 16) * 4),
            base64_pad(),
        ]
    } else {
        seq![
            base64_digit(s[0] as int / 4),
            base64_digit((s[0] as int % 4) * 16 + s[1] as int / 16),
            base64_digit((s[1] as int % 16) * 4 + s[2] as int / 64),
            base64_digit(s[2] as int % 64),
        ] + base64_of(s.skip(3))
    }
}

/// Calls `hex::encode`, which renders every byte as two lower-case
/// hexadecimal digits, high nibble first, with no separator.
#[verifier::external_body]
pub(crate) fn hex_encode(bytes: &[u8]) -> (s: String)
    ensures
        s@ == hex_lower(bytes@),
{
    hex::encode(bytes)
}

/// Calls `Engine::encode` of `base64::prelude::BASE64_STANDARD` and returns
/// the characters as bytes. The standard engine uses the alphabet
/// `A-Z a-z 0-9 + /` and pads the last group with `=`.
#[verifier::external_body]
pub fn base64_encode(bytes: &[u8]) -> (text: Vec<u8>)
    ensures
        text@ == base64_of(bytes@),
{
    BASE64_STANDARD.encode(bytes).into_bytes()
}

/// Calls `Engine::decode` of `base64::prelude::BASE64_STANDARD`. That engine
/// requires canonical padding and refuses non-zero trailing bits, so it
/// accepts exactly the texts that its encoder produces, and gives back the
/// bytes they were made from. The text of the error is the crate's message.
#[verifier::external_body]
pub fn base64_decode(text: &[u8]) -> (r: Result<Vec<u8>, String>)
    ensures
        r matches Ok(bytes) ==> base64_of(bytes@) == text@,
        forall|bytes: Seq<u8>|
            #![trigger base64_of(bytes)]
            base64_of(bytes) == text@ ==> r is Ok && r->Ok_0@ == bytes,
{
    BASE64_STANDARD.decode(text).map_err(|e| e.to_string())
}

} // verus!
