//! OpenSSH SHA-256 fingerprints.
//!
//! The stable principal identifier is the fingerprint of the exact Ed25519
//! public key bytes:
//!
//! ```text
//! SHA256:<43 characters of unpadded standard base64>
//! ```
//!
//! The encoding is canonical: one digest has exactly one accepted spelling.

use crate::text;
use vstd::prelude::*;
use vstd::slice::slice_subrange;

verus! {

/// The prefix of every fingerprint.
pub open spec fn prefix() -> Seq<char> {
    "SHA256:"@
}

/// The six-bit value of one standard base64 character.
pub open spec fn sextet(byte: u8) -> Option<u8> {
    if 65 <= byte <= 90 {
        Some((byte - 65) as u8)
    } else if 97 <= byte <= 122 {
        Some((byte - 71) as u8)
    } else if 48 <= byte <= 57 {
        Some((byte + 4) as u8)
    } else if byte == 43 {
        Some(62)
    } else if byte == 47 {
        Some(63)
    } else {
        None
    }
}

/// The standard base64 character of a six-bit value.
pub open spec fn sextet_char(value: u8) -> u8 {
    if value < 26 {
        (value + 65) as u8
    } else if value < 52 {
        (value + 71) as u8
    } else if value < 62 {
        (value - 4) as u8
    } else if value == 62 {
        43
    } else {
        47
    }
}

/// The six-bit values of an all-base64 body.
pub open spec fn sextets(body: Seq<u8>) -> Seq<u8> {
    Seq::new(body.len(), |i: int| sextet(body[i])->0)
}

/// Byte `i` of the digest written by the six-bit values `v`: four values carry
/// three bytes, most significant bits first.
pub open spec fn digest_byte(v: Seq<u8>, i: int) -> u8 {
    let k = 4 * (i / 3);
    if i % 3 == 0 {
        (v[k] * 4 + v[k + 1] / 16) as u8
    } else if i % 3 == 1 {
        ((v[k + 1] % 16) * 16 + v[k + 2] / 4) as u8
    } else {
        ((v[k + 2] % 4) * 64 + v[k + 3]) as u8
    }
}

/// The 32 digest bytes written by 43 six-bit values.
pub open spec fn digest_of(v: Seq<u8>) -> Seq<u8> {
    Seq::new(32, |i: int| digest_byte(v, i))
}

/// The first position of a character outside the base64 alphabet, or the
/// length.
pub open spec fn first_invalid(body: Seq<u8>, from: int) -> int
    decreases body.len() - from,
{
    if from < 0 || from >= body.len() {
        body.len() as int
    } else if sextet(body[from]) is None {
        from
    } else {
        first_invalid(body, from + 1)
    }
}

/// What is wrong with a fingerprint body, if anything: its length first, then
/// its first character outside the alphabet, then padding bits that are not
/// zero.
pub open spec fn body_error(body: Seq<u8>) -> Option<FingerprintError> {
    if body.len() != 43 {
        Some(FingerprintError::BadLength(body.len() as usize))
    } else {
        let at = first_invalid(body, 0);
        if at < body.len() {
            Some(FingerprintError::InvalidCharacter(at as usize, body[at]))
        } else if sextets(body)[42] % 4 != 0 {
            Some(FingerprintError::NonCanonical)
        } else {
            None
        }
    }
}

/// What is wrong with the text of a fingerprint, if anything.
pub open spec fn fingerprint_error(raw: Seq<char>) -> Option<FingerprintError> {
    if !prefix().is_prefix_of(raw) {
        Some(FingerprintError::MissingPrefix)
    } else {
        body_error(vstd::utf8::encode_utf8(raw.skip(prefix().len() as int)))
    }
}

/// The text of a valid fingerprint.
pub open spec fn is_fingerprint(raw: Seq<char>) -> bool {
    fingerprint_error(raw) is None
}

/// Fingerprint syntax errors.
#[derive(Debug, Clone, Copy, PartialEq, Eq, Structural)]
pub enum FingerprintError {
    MissingPrefix,
    BadLength(usize),
    InvalidCharacter(usize, u8),
    NonCanonical,
}

/// A hexadecimal digit in lower case.
pub open spec fn hex_char(d: nat) -> char {
    if d < 10 {
        (d + '0' as nat) as char
    } else {
        (d - 10 + 'a' as nat) as char
    }
}

/// A byte as `0x` and two hexadecimal digits.
pub open spec fn hex_byte(byte: u8) -> Seq<char> {
    "0x"@.push(hex_char((byte / 16) as nat)).push(hex_char((byte % 16) as nat))
}

pub fn hex_digit(d: u8) -> (c: char)
    requires
        d < 16,
    ensures
        c == hex_char(d as nat),
{
    if d < 10 {
        (d + 48) as char
    } else {
        (d - 10 + 97) as char
    }
}

/// The text of a fingerprint error.
pub open spec fn fingerprint_error_text(error: FingerprintError) -> Seq<char> {
    match error {
        FingerprintError::MissingPrefix => "fingerprint must start with \"SHA256:\""@,
        FingerprintError::BadLength(length) => {
            "fingerprint body must be 43 unpadded base64 characters, got "@ + text::decimal(
                length as nat,
            )
        },
        FingerprintError::InvalidCharacter(index, byte) => {
            "fingerprint contains invalid base64 character "@ + hex_byte(byte) + " at offset "@
                + text::decimal(index as nat)
        },
        FingerprintError::NonCanonical => "fingerprint base64 padding bits are not zero"@,
    }
}

impl FingerprintError {
    /// The operator-facing description.
    pub fn message(&self) -> (r: String)
        ensures
            r@ == fingerprint_error_text(*self),
    {
        match self {
            FingerprintError::MissingPrefix => String::from_str(
                "fingerprint must start with \"SHA256:\"",
            ),
            FingerprintError::BadLength(length) => {
                let mut m = String::from_str(
                    "fingerprint body must be 43 unpadded base64 characters, got ",
                );
                let n = text::decimal_text(*length as u64);
                m.append(n.as_str());
                m
            },
            FingerprintError::InvalidCharacter(index, byte) => {
                let mut m = String::from_str("fingerprint contains invalid base64 character ");
                let mut hex = String::from_str("0x");
                hex.push(hex_digit(*byte / 16));
                hex.push(hex_digit(*byte % 16));
                m.append(hex.as_str());
                m.append(" at offset ");
                let n = text::decimal_text(*index as u64);
                m.append(n.as_str());
                m
            },
            FingerprintError::NonCanonical => String::from_str(
                "fingerprint base64 padding bits are not zero",
            ),
        }
    }
}

/// The six-bit value of one base64 character.
pub fn base64_value(byte: u8) -> (r: Option<u8>)
    ensures
        r == sextet(byte),
{
    if 65 <= byte && byte <= 90 {
        Some(byte - 65)
    } else if 97 <= byte && byte <= 122 {
        Some(byte - 71)
    } else if 48 <= byte && byte <= 57 {
        Some(byte + 4)
    } else if byte == 43 {
        Some(62)
    } else if byte == 47 {
        Some(63)
    } else {
        None
    }
}

proof fn lemma_first_invalid(body: Seq<u8>, from: int)
    requires
        0 <= from <= body.len(),
    ensures
        from <= first_invalid(body, from) <= body.len(),
        forall|k: int|
            from <= k < first_invalid(body, from) ==> (#[trigger] sextet(body[k])) is Some,
        first_invalid(body, from) < body.len() ==> sextet(body[first_invalid(body, from)]) is None,
    decreases body.len() - from,
{
    if from < body.len() && sextet(body[from]) is Some {
        lemma_first_invalid(body, from + 1);
    }
}

proof fn lemma_six_bits(a: u8, b: u8)
    requires
        a < 64,
        b < 64,
    ensures
        (a << 2u8) | (b >> 4u8) == a * 4 + b / 16,
        (a << 4u8) | (b >> 2u8) == (a % 16) * 16 + b / 4,
        (a << 6u8) | b == (a % 4) * 64 + b,
        b & 3 == b % 4,
{
    assert((a << 2u8) | (b >> 4u8) == a * 4 + b / 16) by (bit_vector)
        requires
            a < 64,
            b < 64,
    ;
    assert((a << 4u8) | (b >> 2u8) == (a % 16) * 16 + b / 4) by (bit_vector)
        requires
            a < 64,
            b < 64,
    ;
    assert((a << 6u8) | b == (a % 4) * 64 + b) by (bit_vector)
        requires
            a < 64,
            b < 64,
    ;
    assert(b & 3 == b % 4) by (bit_vector);
}

/// Decode the 43-character unpadded base64 body of a SHA-256 fingerprint into
/// 32 digest bytes, rejecting every non-canonical spelling.
pub fn decode_sha256_base64(digest: &str) -> (r: Result<[u8; 32], FingerprintError>)
    ensures
        match r {
            Ok(bytes) => body_error(vstd::utf8::encode_utf8(digest@)) is None && bytes@ == digest_of(
                sextets(vstd::utf8::encode_utf8(digest@)),
            ),
            Err(error) => body_error(vstd::utf8::encode_utf8(digest@)) == Some(error),
        },
{
    let bytes = digest.as_bytes();
    if bytes.len() != 43 {
        return Err(FingerprintError::BadLength(bytes.len()));
    }
    let ghost body = vstd::utf8::encode_utf8(digest@);
    assert(bytes@ == body);
    let mut values: [u8; 43] = [0u8; 43];
    let mut i: usize = 0;
    while i < 43
        invariant
            i <= 43,
            bytes@ == body,
            body == vstd::utf8::encode_utf8(digest@),
            body.len() == 43,
            first_invalid(body, 0) == first_invalid(body, i as int),
            forall|k: int|
                0 <= k < i ==> (#[trigger] sextet(body[k])) == Some(values[k]) && values[k] < 64,
        decreases 43 - i,
    {
        match base64_value(bytes[i]) {
            Some(value) => {
                values[i] = value;
            },
            None => {
                assert(sextet(body[i as int]) is None);
                assert(first_invalid(body, i as int) == i);
                return Err(FingerprintError::InvalidCharacter(i, bytes[i]));
            },
        }
        i = i + 1;
    }
    let ghost v = sextets(body);
    assert(forall|k: int| 0 <= k < 43 ==> v[k] == #[trigger] values[k]) by {
        assert forall|k: int| 0 <= k < 43 implies v[k] == #[trigger] values[k] by {
            assert(sextet(body[k]) == Some(values[k]));
        }
    }
    assert forall|k: int| 0 <= k < 43 implies #[trigger] v[k] < 64 by {
        assert(sextet(body[k]) == Some(values[k]));
    }
    let mut out: [u8; 32] = [0u8; 32];
    let mut g: usize = 0;
    while g < 10
        invariant
            g <= 10,
            v.len() == 43,
            forall|k: int| 0 <= k < 43 ==> v[k] == #[trigger] values[k],
            forall|k: int| 0 <= k < 43 ==> #[trigger] v[k] < 64,
            forall|j: int| 0 <= j < 3 * g ==> #[trigger] out[j] == digest_byte(v, j),
        decreases 10 - g,
    {
        let a = values[4 * g];
        let b = values[4 * g + 1];
        let c = values[4 * g + 2];
        let d = values[4 * g + 3];
        proof {
            assert(v[4 * g] == a && v[4 * g + 1] == b && v[4 * g + 2] == c && v[4 * g + 3] == d);
            lemma_six_bits(a, b);
            lemma_six_bits(b, c);
            lemma_six_bits(c, d);
        }
        let ghost before = out@;
        out[3 * g] = (a << 2) | (b >> 4);
        out[3 * g + 1] = (b << 4) | (c >> 2);
        out[3 * g + 2] = (c << 6) | d;
        assert forall|j: int| 0 <= j < 3 * (g + 1) implies #[trigger] out[j] == digest_byte(
            v,
            j,
        ) by {
            if j < 3 * g {
                assert(out@[j] == before[j]);
            }
        }
        g = g + 1;
    }
    let a = values[40];
    let b = values[41];
    let c = values[42];
    proof {
        assert(v[40] == a && v[41] == b && v[42] == c);
        lemma_six_bits(a, b);
        lemma_six_bits(b, c);
    }
    if c & 0b11 != 0 {
        return Err(FingerprintError::NonCanonical);
    }
    out[30] = (a << 2) | (b >> 4);
    out[31] = (b << 4) | (c >> 2);
    assert(out@ =~= digest_of(v));
    Ok(out)
}

/// A validated OpenSSH SHA-256 fingerprint of an Ed25519 public key.
#[derive(Debug, PartialEq, Eq, PartialOrd, Ord, Hash)]
pub struct KeyFingerprint {
    text: String,
}

impl View for KeyFingerprint {
    type V = Seq<char>;

    closed spec fn view(&self) -> Seq<char> {
        self.text@
    }
}

impl Clone for KeyFingerprint {
    fn clone(&self) -> (r: KeyFingerprint)
        ensures
            r@ == self@,
    {
        proof {
            use_type_invariant(self);
        }
        KeyFingerprint { text: self.text.clone() }
    }
}

impl KeyFingerprint {
    /// Every fingerprint value carries valid text.
    #[verifier::type_invariant]
    pub closed spec fn valid(&self) -> bool {
        is_fingerprint(self.text@)
    }

    /// Parse and validate the strict wire syntax.
    pub fn parse(raw: &str) -> (r: Result<KeyFingerprint, FingerprintError>)
        ensures
            match r {
                Ok(fingerprint) => is_fingerprint(raw@) && fingerprint@ == raw@,
                Err(error) => fingerprint_error(raw@) == Some(error),
            },
    {
        let chars = text::chars_of(raw);
        let lead = text::chars_of("SHA256:");
        if !text::has_prefix(chars.as_slice(), lead.as_slice()) {
            return Err(FingerprintError::MissingPrefix);
        }
        let body = slice_subrange(chars.as_slice(), lead.len(), chars.len());
        assert(body@ =~= raw@.skip(prefix().len() as int));
        let digest = text::string_of(body);
        match decode_sha256_base64(digest.as_str()) {
            Ok(_) => Ok(KeyFingerprint { text: raw.to_owned() }),
            Err(error) => Err(error),
        }
    }

    /// Wrap text that is already known to be a fingerprint.
    pub(crate) fn from_valid(text: String) -> (r: KeyFingerprint)
        requires
            is_fingerprint(text@),
        ensures
            r@ == text@,
    {
        KeyFingerprint { text }
    }

    /// The fingerprint text.
    pub fn as_str(&self) -> (r: &str)
        ensures
            r@ == self@,
            is_fingerprint(r@),
    {
        proof {
            use_type_invariant(self);
        }
        self.text.as_str()
    }

    /// Whether two fingerprints name the same key.
    pub fn same(&self, other: &KeyFingerprint) -> (r: bool)
        ensures
            r == (self@ == other@),
    {
        self.text == other.text
    }
}

/// The base64 body that writes a 32-byte digest.
pub open spec fn body_of(digest: Seq<u8>) -> Seq<u8> {
    Seq::new(43, |j: int| sextet_char(digest_sextet(digest, j)))
}

/// Six-bit value `j` of a digest, zero bits following its last byte.
pub open spec fn digest_sextet(digest: Seq<u8>, j: int) -> u8 {
    let k = 3 * (j / 4);
    let next = if k + 1 < digest.len() { digest[k + 1] } else { 0u8 };
    let third = if k + 2 < digest.len() { digest[k + 2] } else { 0u8 };
    if j % 4 == 0 {
        digest[k] / 4
    } else if j % 4 == 1 {
        ((digest[k] % 4) * 16 + next / 16) as u8
    } else if j % 4 == 2 {
        ((next % 16) * 4 + third / 64) as u8
    } else {
        third % 64
    }
}

proof fn lemma_sextet_inverse(value: u8)
    requires
        value < 64,
    ensures
        sextet(sextet_char(value)) == Some(value),
{
}

proof fn lemma_sextet_char_inverse(byte: u8)
    requires
        sextet(byte) is Some,
    ensures
        sextet(byte)->0 < 64,
        sextet_char(sextet(byte)->0) == byte,
{
}

proof fn lemma_four_sextets(a: u8, b: u8, c: u8, d: u8)
    requires
        a < 64,
        b < 64,
        c < 64,
        d < 64,
    ensures
        ({
            let x = (a * 4 + b / 16) as u8;
            let y = ((b % 16) * 16 + c / 4) as u8;
            let z = ((c % 4) * 64 + d) as u8;
            &&& x / 4 == a
            &&& (x % 4) * 16 + y / 16 == b
            &&& (y % 16) * 4 + z / 64 == c
            &&& z % 64 == d
            &&& c % 4 == 0 ==> (y % 16) * 4 == c
        }),
{
}

proof fn lemma_three_bytes(x: u8, y: u8, z: u8)
    ensures
        ({
            let a = x / 4;
            let b = ((x % 4) * 16 + y / 16) as u8;
            let c = ((y % 16) * 4 + z / 64) as u8;
            let d = z % 64;
            &&& a < 64 && b < 64 && c < 64 && d < 64
            &&& a * 4 + b / 16 == x
            &&& (b % 16) * 16 + c / 4 == y
            &&& (c % 4) * 64 + d == z
            &&& ((y % 16) * 4) % 4 == 0
        }),
{
}

/// The three bytes of group `g`, and the four values that write them.
proof fn lemma_group_of_body(v: Seq<u8>, g: int)
    requires
        v.len() == 43,
        forall|j: int| 0 <= j < 43 ==> #[trigger] v[j] < 64,
        v[42] % 4 == 0,
        0 <= g <= 10,
    ensures
        digest_sextet(digest_of(v), 4 * g) == v[4 * g],
        digest_sextet(digest_of(v), 4 * g + 1) == v[4 * g + 1],
        digest_sextet(digest_of(v), 4 * g + 2) == v[4 * g + 2],
        g < 10 ==> digest_sextet(digest_of(v), 4 * g + 3) == v[4 * g + 3],
{
    let digest = digest_of(v);
    let d = if g < 10 { v[4 * g + 3] } else { 0u8 };
    lemma_four_sextets(v[4 * g], v[4 * g + 1], v[4 * g + 2], d);
    assert((4 * g) / 4 == g && (4 * g) % 4 == 0);
    assert((4 * g + 1) / 4 == g && (4 * g + 1) % 4 == 1);
    assert((4 * g + 2) / 4 == g && (4 * g + 2) % 4 == 2);
    assert((4 * g + 3) / 4 == g && (4 * g + 3) % 4 == 3);
    assert((3 * g) / 3 == g && (3 * g) % 3 == 0);
    assert((3 * g + 1) / 3 == g && (3 * g + 1) % 3 == 1);
    assert((3 * g + 2) / 3 == g && (3 * g + 2) % 3 == 2);
    assert(digest[3 * g] == digest_byte(v, 3 * g));
    assert(digest[3 * g + 1] == digest_byte(v, 3 * g + 1));
    if g < 10 {
        assert(digest[3 * g + 2] == digest_byte(v, 3 * g + 2));
    }
}

/// An accepted body is the encoding of the digest it decodes to: re-encoding
/// the digest reproduces the body byte for byte.
pub proof fn accepted_body_is_canonical(body: Seq<u8>)
    requires
        body_error(body) is None,
    ensures
        body_of(digest_of(sextets(body))) == body,
{
    lemma_first_invalid(body, 0);
    let v = sextets(body);
    let digest = digest_of(v);
    assert forall|j: int| 0 <= j < 43 implies #[trigger] v[j] < 64 && sextet_char(v[j])
        == body[j] by {
        assert(sextet(body[j]) is Some);
        lemma_sextet_char_inverse(body[j]);
    }
    assert forall|j: int| 0 <= j < 43 implies #[trigger] body_of(digest)[j] == body[j] by {
        let g = j / 4;
        lemma_group_of_body(v, g);
        assert(j == 4 * g || j == 4 * g + 1 || j == 4 * g + 2 || j == 4 * g + 3);
        assert(digest_sextet(digest, j) == v[j]);
    }
    assert(body_of(digest) =~= body);
}

/// The four values of group `g` of a digest, and the bytes they write.
proof fn lemma_group_of_digest(digest: Seq<u8>, v: Seq<u8>, g: int)
    requires
        digest.len() == 32,
        v.len() == 43,
        forall|j: int| 0 <= j < 43 ==> #[trigger] v[j] == digest_sextet(digest, j),
        0 <= g <= 10,
    ensures
        digest_byte(v, 3 * g) == digest[3 * g],
        digest_byte(v, 3 * g + 1) == digest[3 * g + 1],
        g < 10 ==> digest_byte(v, 3 * g + 2) == digest[3 * g + 2],
{
    let z = if g < 10 { digest[3 * g + 2] } else { 0u8 };
    lemma_three_bytes(digest[3 * g], digest[3 * g + 1], z);
    assert((4 * g) / 4 == g && (4 * g) % 4 == 0);
    assert((4 * g + 1) / 4 == g && (4 * g + 1) % 4 == 1);
    assert((4 * g + 2) / 4 == g && (4 * g + 2) % 4 == 2);
    assert((4 * g + 3) / 4 == g && (4 * g + 3) % 4 == 3);
    assert((3 * g) / 3 == g && (3 * g) % 3 == 0);
    assert((3 * g + 1) / 3 == g && (3 * g + 1) % 3 == 1);
    assert((3 * g + 2) / 3 == g && (3 * g + 2) % 3 == 2);
    assert(v[4 * g] == digest_sextet(digest, 4 * g));
    assert(v[4 * g + 1] == digest_sextet(digest, 4 * g + 1));
    assert(v[4 * g + 2] == digest_sextet(digest, 4 * g + 2));
    if g < 10 {
        assert(v[4 * g + 3] == digest_sextet(digest, 4 * g + 3));
    }
}

proof fn lemma_digest_sextet_small(digest: Seq<u8>, j: int)
    ensures
        digest_sextet(digest, j) < 64,
{
    let k = 3 * (j / 4);
    let next = if k + 1 < digest.len() { digest[k + 1] } else { 0u8 };
    let third = if k + 2 < digest.len() { digest[k + 2] } else { 0u8 };
    lemma_three_bytes(digest[k], next, third);
}

/// Every 32-byte digest has an accepted body that decodes back to it.
pub proof fn digest_round_trip(digest: Seq<u8>)
    requires
        digest.len() == 32,
    ensures
        body_error(body_of(digest)) is None,
        digest_of(sextets(body_of(digest))) == digest,
{
    let body = body_of(digest);
    let v = sextets(body);
    assert forall|j: int| 0 <= j < 43 implies (#[trigger] sextet(body[j])) is Some && v[j]
        == digest_sextet(digest, j) by {
        lemma_digest_sextet_small(digest, j);
        lemma_sextet_inverse(digest_sextet(digest, j));
    }
    lemma_first_invalid(body, 0);
    assert forall|j: int| 0 <= j < 43 implies #[trigger] v[j] == digest_sextet(digest, j) by {
        assert(sextet(body[j]) is Some);
    }
    assert(v[42] % 4 == 0) by {
        assert(sextet(body[42]) is Some);
        lemma_three_bytes(digest[30], digest[31], 0);
    }
    assert forall|i: int| 0 <= i < 32 implies #[trigger] digest_of(v)[i] == digest[i] by {
        let g = i / 3;
        lemma_group_of_digest(digest, v, g);
        assert(i == 3 * g || i == 3 * g + 1 || i == 3 * g + 2);
    }
    assert(digest_of(v) =~= digest);
}

proof fn lemma_ascii_bytes(s: Seq<char>)
    requires
        forall|i: int|
            0 <= i < vstd::utf8::encode_utf8(s).len() ==> (#[trigger] vstd::utf8::encode_utf8(s)[i])
                < 0x80,
    ensures
        vstd::utf8::encode_utf8(s).len() == s.len(),
        forall|i: int|
            0 <= i < s.len() ==> vstd::utf8::encode_utf8(s)[i] == (#[trigger] s[i]) as u32,
    decreases s.len(),
{
    if s.len() > 0 {
        let bytes = vstd::utf8::encode_utf8(s);
        let head = vstd::utf8::encode_scalar(s[0] as u32);
        let tail = vstd::utf8::encode_utf8(s.drop_first());
        let c = s[0] as u32;
        assert(bytes == head + tail);
        assert(c < 0x80) by {
            assert(bytes[0] == head[0]);
            if c >= 0x80 {
                assert(0xc0u8 | ((c >> 6) & 0x1f) as u8 >= 0x80) by (bit_vector);
                assert(0xe0u8 | ((c >> 12) & 0xf) as u8 >= 0x80) by (bit_vector);
                assert(0xf0u8 | ((c >> 18) & 0x7) as u8 >= 0x80) by (bit_vector);
            }
        }
        assert(head =~= seq![c as u8]) by {
            assert((c & 0x7f) as u8 == c as u8) by (bit_vector)
                requires
                    c < 0x80,
            ;
        }
        assert forall|i: int| 0 <= i < tail.len() implies (#[trigger] tail[i]) < 0x80 by {
            assert(bytes[i + 1] == tail[i]);
        }
        lemma_ascii_bytes(s.drop_first());
        assert forall|i: int| 0 <= i < s.len() implies bytes[i] == (#[trigger] s[i]) as u32 by {
            if i > 0 {
                assert(s.drop_first()[i - 1] == s[i]);
                assert(bytes[i] == tail[i - 1]);
            }
        }
    }
}

/// The text of a fingerprint is printable ASCII without quotes or backslashes.
pub proof fn fingerprint_text_is_plain(raw: Seq<char>)
    requires
        is_fingerprint(raw),
    ensures
        crate::quote::is_plain(raw),
        raw.len() == 50,
{
    reveal_strlit("SHA256:");
    let body = vstd::utf8::encode_utf8(raw.skip(7));
    lemma_first_invalid(body, 0);
    assert forall|i: int| 0 <= i < body.len() implies (#[trigger] body[i]) < 0x80 && body[i]
        >= 0x20 by {
        assert(sextet(body[i]) is Some);
    }
    lemma_ascii_bytes(raw.skip(7));
    assert forall|i: int| 0 <= i < raw.len() implies crate::quote::is_plain_char(
        #[trigger] raw[i],
    ) by {
        if i < 7 {
            assert(raw[i] == raw.subrange(0, 7)[i]);
        } else {
            assert(raw.skip(7)[i - 7] == raw[i]);
            assert(body[i - 7] < 0x80 && body[i - 7] >= 0x20);
            assert(sextet(body[i - 7]) is Some);
        }
    }
}

/// Two accepted bodies that decode to the same digest are the same text.
pub proof fn fingerprint_spelling_is_unique(a: Seq<u8>, b: Seq<u8>)
    requires
        body_error(a) is None,
        body_error(b) is None,
        digest_of(sextets(a)) == digest_of(sextets(b)),
    ensures
        a == b,
{
    accepted_body_is_canonical(a);
    accepted_body_is_canonical(b);
}

/// The base64 alphabet: upper case, lower case, digits, plus, and slash, in that
/// order.
pub proof fn the_alphabet_is_standard_base64(byte: u8)
    ensures
        sextet(byte) is Some <==> {
            ||| 'A' as u8 <= byte <= 'Z' as u8
            ||| 'a' as u8 <= byte <= 'z' as u8
            ||| '0' as u8 <= byte <= '9' as u8
            ||| byte == '+' as u8
            ||| byte == '/' as u8
        },
        'A' as u8 <= byte <= 'Z' as u8 ==> sextet(byte)->0 == byte - 'A' as u8,
        'a' as u8 <= byte <= 'z' as u8 ==> sextet(byte)->0 == 26 + byte - 'a' as u8,
        '0' as u8 <= byte <= '9' as u8 ==> sextet(byte)->0 == 52 + byte - '0' as u8,
        sextet('+' as u8) == Some(62u8),
        sextet('/' as u8) == Some(63u8),
{
}

/// A fingerprint is accepted exactly when it has the prefix and a body of 43
/// base64 characters whose last one leaves the unused bits zero.
pub proof fn fingerprints_are_prefixed_digests(raw: Seq<char>)
    ensures
        is_fingerprint(raw) <==> {
            let body = vstd::utf8::encode_utf8(raw.skip(7));
            &&& "SHA256:"@.is_prefix_of(raw)
            &&& body.len() == 43
            &&& forall|i: int| 0 <= i < 43 ==> (#[trigger] sextet(body[i])) is Some
            &&& sextet(body[42])->0 % 4 == 0
        },
{
    reveal_strlit("SHA256:");
    let body = vstd::utf8::encode_utf8(raw.skip(7));
    lemma_first_invalid(body, 0);
    if body.len() == 43 {
        assert(sextets(body)[42] == sextet(body[42])->0);
    }
}

} // verus!
