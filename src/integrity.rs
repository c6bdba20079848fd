//! Content integrity identifiers: an algorithm tag and a digest in hex.

use vstd::prelude::*;

verus! {

/// The digest that ssri computes of `bytes` with `alg`, in lower-case hex.
pub uninterp spec fn digest_hex_of(alg: Algorithm, bytes: Seq<u8>) -> Seq<char>;

/// Hash algorithms an identifier may be tagged with.
#[derive(Clone, Copy, Debug, PartialEq, Eq, Structural)]
pub enum Algorithm {
    Sha512,
    Sha384,
    Sha256,
    Sha1,
    Xxh3,
}

/// An algorithm-tagged digest. Two identifiers are the same content claim
/// exactly when the algorithm and the digest match.
#[derive(Clone, Debug)]
pub struct Integrity {
    pub algorithm: Algorithm,
    /// The digest as lower-case hexadecimal text.
    pub hex: String,
}

/// The mathematical value of an identifier.
pub ghost struct IntegrityV {
    pub algorithm: Algorithm,
    pub hex: Seq<char>,
}

impl View for Integrity {
    type V = IntegrityV;

    open spec fn view(&self) -> IntegrityV {
        IntegrityV { algorithm: self.algorithm, hex: self.hex@ }
    }
}

/// Errors of the integrity layer.
#[derive(Clone, Copy, Debug, PartialEq, Eq, Structural)]
pub enum IntegrityError {
    /// The text is not an even-length run of hexadecimal digits.
    InvalidFormat,
    /// The bytes do not hash to the claimed digest.
    Mismatch,
}

pub open spec fn is_hex_digit(c: char) -> bool {
    ('0' <= c && c <= '9') || ('a' <= c && c <= 'f') || ('A' <= c && c <= 'F')
}

/// Text that decodes as hexadecimal: digits only, two per byte.
pub open spec fn is_hex_text(s: Seq<char>) -> bool {
    &&& s.len() % 2 == 0
    &&& forall|i: int| 0 <= i < s.len() ==> is_hex_digit(#[trigger] s[i])
}

/// `l` is the lower-case form of the hex digit `c`.
pub open spec fn lower_digit_of(l: char, c: char) -> bool {
    if 'A' <= c && c <= 'F' {
        l as u32 == c as u32 + 32
    } else {
        l == c
    }
}

/// `l` is `s` with every upper-case hex digit in lower case.
pub open spec fn is_lower_hex_of(l: Seq<char>, s: Seq<char>) -> bool {
    &&& l.len() == s.len()
    &&& forall|i: int| 0 <= i < s.len() ==> lower_digit_of(#[trigger] l[i], s[i])
}

/// Relies on ssri's `IntegrityOpts` (algorithm, chain, result) and
/// `Integrity::to_hex`: the digest of `bytes` under `alg`, in lower-case hex.
#[verifier::external_body]
fn digest_hex(alg: Algorithm, bytes: &[u8]) -> (r: String)
    ensures
        r@ == digest_hex_of(alg, bytes@),
{
    let a = match alg {
        Algorithm::Sha512 => ssri::Algorithm::Sha512,
        Algorithm::Sha384 => ssri::Algorithm::Sha384,
        Algorithm::Sha256 => ssri::Algorithm::Sha256,
        Algorithm::Sha1 => ssri::Algorithm::Sha1,
        Algorithm::Xxh3 => ssri::Algorithm::Xxh3,
    };
    ssri::IntegrityOpts::new().algorithm(a).chain(bytes).result().to_hex().1
}

/// Relies on ssri's `Integrity::from_hex` (hex::decode: succeeds exactly on
/// an even number of hex digits of either case) and `Integrity::to_hex`
/// (hex::encode: lower-case digits).
#[verifier::external_body]
fn decode_hex(text: &str) -> (r: Option<String>)
    ensures
        r is Some <==> is_hex_text(text@),
        r matches Some(h) ==> is_lower_hex_of(h@, text@),
{
    match ssri::Integrity::from_hex(text, ssri::Algorithm::Sha256) {
        Ok(i) => Some(i.to_hex().1),
        Err(_) => None,
    }
}

impl Integrity {
    /// The SHA-256 identifier of `bytes`.
    pub fn compute(bytes: &[u8]) -> (r: Integrity)
        ensures
            r@ == (IntegrityV { algorithm: Algorithm::Sha256, hex: digest_hex_of(Algorithm::Sha256, bytes@) }),
    {
        Integrity { algorithm: Algorithm::Sha256, hex: digest_hex(Algorithm::Sha256, bytes) }
    }

    /// Parses a hex digest tagged with `algorithm`.
    pub fn from_hex(text: &str, algorithm: Algorithm) -> (r: Result<Integrity, IntegrityError>)
        ensures
            r is Ok <==> is_hex_text(text@),
            r matches Ok(i) ==> i.algorithm == algorithm && is_lower_hex_of(i.hex@, text@),
            r matches Err(e) ==> e == IntegrityError::InvalidFormat,
    {
        match decode_hex(text) {
            Some(hex) => Ok(Integrity { algorithm, hex }),
            None => Err(IntegrityError::InvalidFormat),
        }
    }

    /// Whether two identifiers make the same claim.
    pub fn same_as(&self, other: &Integrity) -> (r: bool)
        ensures
            r == (self@ == other@),
    {
        self.algorithm == other.algorithm && self.hex == other.hex
    }

    /// Recomputes the digest of `bytes` and compares it with this identifier.
    pub fn verify(&self, bytes: &[u8]) -> (r: Result<(), IntegrityError>)
        ensures
            r is Ok <==> self.hex@ == digest_hex_of(self.algorithm, bytes@),
            r matches Err(e) ==> e == IntegrityError::Mismatch,
    {
        let h = digest_hex(self.algorithm, bytes);
        if h == self.hex {
            Ok(())
        } else {
            Err(IntegrityError::Mismatch)
        }
    }

    /// A copy with the same value.
    pub fn copy(&self) -> (r: Integrity)
        ensures
            r@ == self@,
    {
        Integrity { algorithm: self.algorithm, hex: self.hex.clone() }
    }
}

} // verus!
