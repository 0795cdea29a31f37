//! The digest codec: 32-byte hashes and their `0x`-prefixed hex text.

use vstd::prelude::*;
use crate::error::MmrError;

verus! {

pub open spec fn is_hex_digit(c: char) -> bool {
    (48 <= c as u32 && c as u32 <= 57)      // '0'..'9'
    || (97 <= c as u32 && c as u32 <= 102)  // 'a'..'f'
    || (65 <= c as u32 && c as u32 <= 70)   // 'A'..'F'
}

pub open spec fn hex_val(c: char) -> nat {
    if 48 <= c as u32 && c as u32 <= 57 {
        (c as u32 - 48) as nat
    } else if 97 <= c as u32 && c as u32 <= 102 {
        (c as u32 - 87) as nat
    } else {
        (c as u32 - 55) as nat
    }
}

pub open spec fn hex_char(d: nat) -> char {
    if d == 0 { '0' }
    else if d == 1 { '1' }
    else if d == 2 { '2' }
    else if d == 3 { '3' }
    else if d == 4 { '4' }
    else if d == 5 { '5' }
    else if d == 6 { '6' }
    else if d == 7 { '7' }
    else if d == 8 { '8' }
    else if d == 9 { '9' }
    else if d == 10 { 'a' }
    else if d == 11 { 'b' }
    else if d == 12 { 'c' }
    else if d == 13 { 'd' }
    else if d == 14 { 'e' }
    else { 'f' }
}

/// The bytes a run of hex digit pairs denotes.
pub open spec fn hex_decoded(s: Seq<char>) -> Seq<u8> {
    Seq::new((s.len() / 2) as nat, |i: int| (hex_val(s[2 * i]) * 16 + hex_val(s[2 * i + 1])) as u8)
}

/// The lowercase hex text of a byte string: two digits per byte.
pub open spec fn hex_encoded(bytes: Seq<u8>) -> Seq<char> {
    Seq::new(2 * bytes.len(), |i: int| if i % 2 == 0 {
        hex_char((bytes[i / 2] / 16) as nat)
    } else {
        hex_char((bytes[i / 2] % 16) as nat)
    })
}

/// A 32-byte hash value.  The constructor checks the length, so an invalid
/// digest is unrepresentable.
#[derive(Debug)]
pub struct Digest {
    bytes: Vec<u8>,
}

impl View for Digest {
    type V = Seq<u8>;

    closed spec fn view(&self) -> Seq<u8> {
        self.bytes@
    }
}

impl Digest {
    pub closed spec fn wf(&self) -> bool {
        self.bytes@.len() == 32
    }

    /// Validates the length before producing the value.
    pub fn new(bytes: Vec<u8>) -> (r: Result<Digest, MmrError>)
        ensures
            r.is_ok() <==> bytes@.len() == 32,
            r matches Ok(d) ==> d@ == bytes@ && d.wf(),
            r matches Err(e) ==> e == MmrError::MalformedDigest,
    {
        if bytes.len() == 32 {
            Ok(Digest { bytes })
        } else {
            Err(MmrError::MalformedDigest)
        }
    }

    /// For callers that must hand the raw bytes to the proof predicate.
    pub fn as_bytes(&self) -> (r: &Vec<u8>)
        ensures
            r@ == self@,
    {
        &self.bytes
    }

    /// A fresh digest with the same bytes.
    pub fn duplicate(&self) -> (r: Digest)
        ensures
            r@ == self@,
            self.wf() ==> r.wf(),
    {
        let mut bytes: Vec<u8> = Vec::new();
        let n = self.bytes.len();
        let mut i: usize = 0;
        while i < n
            invariant
                n == self.bytes@.len(),
                0 <= i <= n,
                bytes@ =~= self.bytes@.take(i as int),
            decreases n - i,
        {
            bytes.push(self.bytes[i]);
            i = i + 1;
        }
        proof {
            assert(bytes@ =~= self.bytes@);
        }
        Digest { bytes }
    }

    pub(crate) fn from_raw(bytes: Vec<u8>) -> (r: Digest)
        requires
            bytes@.len() == 32,
        ensures
            r@ == bytes@,
            r.wf(),
    {
        Digest { bytes }
    }
}

/// Relies on `hex::encode` (crate `hex`): the lowercase hex rendering of
/// the bytes, two digits per byte.
#[verifier::external_body]
fn hex_encode(bytes: &Vec<u8>) -> (r: String)
    ensures
        r@ == hex_encoded(bytes@),
{
    hex::encode(bytes.as_slice())
}

/// Relies on `hex::decode` (crate `hex`): succeeds exactly on even-length
/// strings made of hex digits (either case), and returns the denoted bytes.
#[verifier::external_body]
fn hex_decode(s: &str) -> (r: Result<Vec<u8>, MmrError>)
    ensures
        r.is_ok() <==> (s@.len() % 2 == 0 && forall|i: int| 0 <= i < s@.len() ==> is_hex_digit(s@[i])),
        r matches Ok(v) ==> v@ == hex_decoded(s@),
        r matches Err(e) ==> e == MmrError::MalformedDigest,
{
    hex::decode(s).map_err(|_| MmrError::MalformedDigest)
}

/// The only textual form this system accepts for a digest: `0x`, then
/// exactly 64 hex characters.
pub open spec fn is_digest_text(s: Seq<char>) -> bool {
    s.len() == 66 && s[0] == '0' && s[1] == 'x'
    && forall|i: int| 2 <= i < 66 ==> is_hex_digit(s[i])
}

/// The bytes a well-formed digest text denotes.
pub open spec fn digest_of(s: Seq<char>) -> Seq<u8> {
    hex_decoded(s.skip(2))
}

/// Strips the required `0x` prefix and decodes the remaining 64 hex
/// characters into 32 bytes.  Anything else is `MalformedDigest`.
pub fn decode_digest(text: &str) -> (r: Result<Digest, MmrError>)
    ensures
        r.is_ok() <==> is_digest_text(text@),
        r matches Ok(d) ==> d@ == digest_of(text@) && d.wf(),
        r matches Err(e) ==> e == MmrError::MalformedDigest,
{
    let n = text.unicode_len();
    if n != 66 {
        return Err(MmrError::MalformedDigest);
    }
    if text.get_char(0) != '0' || text.get_char(1) != 'x' {
        return Err(MmrError::MalformedDigest);
    }
    let hex_part = text.substring_char(2, 66);
    proof {
        assert(hex_part@ =~= text@.skip(2));
        if forall|j: int| 0 <= j < hex_part@.len() ==> is_hex_digit(hex_part@[j]) {
            assert forall|i: int| 2 <= i < 66 implies is_hex_digit(text@[i]) by {
                assert(text@.skip(2)[i - 2] == text@[i]);
                assert(is_hex_digit(hex_part@[i - 2]));
            }
        }
        if forall|i: int| 2 <= i < 66 ==> is_hex_digit(text@[i]) {
            assert forall|j: int| 0 <= j < hex_part@.len() implies is_hex_digit(hex_part@[j]) by {
                assert(text@.skip(2)[j] == text@[j + 2]);
                assert(is_hex_digit(text@[j + 2]));
            }
        }
    }
    match hex_decode(hex_part) {
        Ok(bytes) => {
            assert(bytes@.len() == 32);
            Ok(Digest::from_raw(bytes))
        }
        Err(e) => Err(e),
    }
}

/// `0x` + lowercase hex, total length 66.  Total function, no failure path.
pub fn encode_digest(d: &Digest) -> (r: String)
    requires
        d.wf(),
    ensures
        r@ == "0x"@ + hex_encoded(d@),
        is_digest_text(r@),
{
    let prefix = String::from_str("0x");
    let r = prefix.concat(hex_encode(&d.bytes).as_str());
    proof {
        reveal_strlit("0x");
        lemma_hex_digits(d@);
        assert(r@.skip(2) =~= hex_encoded(d@));
    }
    r
}

/// Every character `hex_encoded` produces is a hex digit, and the text is
/// twice as long as the bytes.
proof fn lemma_hex_digits(bytes: Seq<u8>)
    ensures
        hex_encoded(bytes).len() == 2 * bytes.len(),
        forall|i: int| 0 <= i < 2 * bytes.len() ==> is_hex_digit(#[trigger] hex_encoded(bytes)[i]),
{
}

/// Decoding undoes encoding, byte for byte.
pub proof fn lemma_hex_round_trip(bytes: Seq<u8>)
    ensures
        hex_decoded(hex_encoded(bytes)) =~= bytes,
{
    let enc = hex_encoded(bytes);
    assert forall|i: int| 0 <= i < bytes.len() implies hex_decoded(enc)[i] == bytes[i] by {
        assert(enc[2 * i] == hex_char((bytes[i] / 16) as nat));
        assert(enc[2 * i + 1] == hex_char((bytes[i] % 16) as nat));
    }
}

/// Round trip through the textual form: the text of a digest is
/// well-formed and reads back as the same 32 bytes.
pub proof fn lemma_digest_round_trip(d: Seq<u8>)
    requires
        d.len() == 32,
    ensures
        is_digest_text("0x"@ + hex_encoded(d)),
        digest_of("0x"@ + hex_encoded(d)) =~= d,
{
    reveal_strlit("0x");
    lemma_hex_digits(d);
    lemma_hex_round_trip(d);
    assert(("0x"@ + hex_encoded(d)).skip(2) =~= hex_encoded(d));
}

} // verus!
