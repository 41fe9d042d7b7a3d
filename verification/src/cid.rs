//! Content identifiers as text: `cid:` and the hash in hexadecimal digits.

use vstd::prelude::*;
use crate::hashing::cid_prefix;
use crate::types::{ContentId, ContentIdView};

verus! {

/// The lower-case hexadecimal digit of `n`, for `n` below 16.
pub open spec fn hex_digit(n: u8) -> u8 {
    if n < 10 {
        (48 + n) as u8
    } else {
        (87 + n) as u8
    }
}

/// The number that the hexadecimal digit `c` stands for, in either case.
pub open spec fn hex_digit_value(c: u8) -> Option<u8> {
    if 48 <= c <= 57 {
        Some((c - 48) as u8)
    } else if 97 <= c <= 102 {
        Some((c - 87) as u8)
    } else if 65 <= c <= 70 {
        Some((c - 55) as u8)
    } else {
        None
    }
}

/// `data` in lower-case hexadecimal digits, two for each byte.
pub open spec fn hex_text(data: Seq<u8>) -> Seq<u8> {
    Seq::new(
        2 * data.len(),
        |i: int|
            if i % 2 == 0 {
                hex_digit(data[i / 2] / 16)
            } else {
                hex_digit(data[i / 2] % 16)
            },
    )
}

/// Whether `text` is an even number of hexadecimal digits.
pub open spec fn is_hex_text(text: Seq<u8>) -> bool {
    text.len() % 2 == 0 && forall|i: int| 0 <= i < text.len() ==> hex_digit_value(text[i]) is Some
}

/// The bytes that the hexadecimal digits of `text` stand for.
pub open spec fn hex_value(text: Seq<u8>) -> Seq<u8> {
    Seq::new(
        text.len() / 2,
        |i: int|
            (hex_digit_value(text[2 * i]).unwrap() * 16 + hex_digit_value(
                text[2 * i + 1],
            ).unwrap()) as u8,
    )
}

/// The first place of `text` that holds no hexadecimal digit.
pub open spec fn first_non_hex(text: Seq<u8>) -> int {
    choose|i: int|
        0 <= i < text.len() && hex_digit_value(text[i]) is None && forall|j: int|
            0 <= j < i ==> hex_digit_value(text[j]) is Some
}

/// Why a text is not hexadecimal.
#[derive(Clone, Copy, PartialEq, Eq, Structural, Debug)]
pub enum HexFault {
    /// No hexadecimal digit stands at `index`.
    InvalidHexCharacter { index: usize },
    /// The digits are odd in number.
    OddLength,
    /// The digits do not fill the container that they are decoded into.
    InvalidStringLength,
}

/// The fault of a text that is not hexadecimal: an odd length, else its
/// first character that is no digit.
pub open spec fn hex_fault(text: Seq<u8>) -> HexFault {
    if text.len() % 2 != 0 {
        HexFault::OddLength
    } else {
        HexFault::InvalidHexCharacter { index: first_non_hex(text) as usize }
    }
}

/// Calls `hex::encode`.  Trusted: the text that it returns holds two
/// lower-case hexadecimal digits for each byte of `data`, the high half
/// first.
#[verifier::external_body]
pub(crate) fn hex_encode(data: &[u8]) -> (text: Vec<u8>)
    ensures
        text@ == hex_text(data@),
{
    hex::encode(data).into_bytes()
}

/// Calls `hex::decode`.  Trusted: it returns the bytes that the digits of
/// `text` stand for, where `text` is an even number of hexadecimal digits
/// of either case; else it fails on the odd length, or on the first
/// character that is no digit.
#[verifier::external_body]
pub(crate) fn hex_decode(text: &[u8]) -> (r: Result<Vec<u8>, HexFault>)
    ensures
        match r {
            Ok(bytes) => is_hex_text(text@) && bytes@ == hex_value(text@),
            Err(fault) => !is_hex_text(text@) && fault == hex_fault(text@),
        },
{
    match hex::decode(text) {
        Ok(bytes) => Ok(bytes),
        Err(hex::FromHexError::InvalidHexCharacter { c: _, index }) => Err(
            HexFault::InvalidHexCharacter { index },
        ),
        Err(hex::FromHexError::OddLength) => Err(HexFault::OddLength),
        Err(hex::FromHexError::InvalidStringLength) => Err(HexFault::InvalidStringLength),
    }
}

/// Why a text names no content.
#[derive(Clone, Copy, PartialEq, Eq, Structural, Debug)]
pub enum CidError {
    /// The text is too short for a prefix, or its fifth byte is inside a
    /// character.
    InvalidCid,
    /// The text does not start with `cid:`.
    MissingPrefix,
    /// What follows the prefix is not hexadecimal.
    InvalidHex(HexFault),
    /// The digits do not stand for 32 bytes.
    InvalidHashLength,
}

/// The text of the content identifier with the given hash.
pub open spec fn cid_text(hash: Seq<u8>) -> Seq<u8> {
    cid_prefix() + hex_text(hash)
}

/// Why `text` names no content, if it names none.
pub open spec fn cid_error(text: Seq<u8>) -> Option<CidError> {
    if text.len() < 4 || (text.len() > 4 && 128 <= text[4] < 192) {
        Some(CidError::InvalidCid)
    } else if text.take(4) != cid_prefix() {
        Some(CidError::MissingPrefix)
    } else if !is_hex_text(text.skip(4)) {
        Some(CidError::InvalidHex(hex_fault(text.skip(4))))
    } else if text.len() != 68 {
        Some(CidError::InvalidHashLength)
    } else {
        None
    }
}

impl ContentId {
    /// The identifier as text: `cid:` and the hash in lower-case hexadecimal
    /// digits.
    pub fn to_cid(&self) -> (text: Vec<u8>)
        ensures
            text@ == cid_text(self@.hash),
    {
        let mut text: Vec<u8> = Vec::new();
        text.push(99u8);
        text.push(105u8);
        text.push(100u8);
        text.push(58u8);
        assert(text@ =~= cid_prefix());
        let hash = self.hash();
        let mut digits = hex_encode(hash.as_slice());
        text.append(&mut digits);
        text
    }

    /// Reads an identifier from its text: `cid:` and 64 hexadecimal digits of
    /// either case.
    pub fn from_cid(text: &[u8]) -> (r: Result<ContentId, CidError>)
        ensures
            match r {
                Ok(id) => cid_error(text@) is None && id@ == (ContentIdView {
                    prefix: cid_prefix(),
                    hash: hex_value(text@.skip(4)),
                }),
                Err(e) => cid_error(text@) == Some(e),
            },
    {
        if text.len() < 4 || (text.len() > 4 && text[4] >= 128 && text[4] < 192) {
            return Err(CidError::InvalidCid);
        }
        if text[0] != 99u8 || text[1] != 105u8 || text[2] != 100u8 || text[3] != 58u8 {
            assert(text@.take(4)[0] == text@[0]);
            assert(text@.take(4)[1] == text@[1]);
            assert(text@.take(4)[2] == text@[2]);
            assert(text@.take(4)[3] == text@[3]);
            return Err(CidError::MissingPrefix);
        }
        assert(text@.take(4) =~= cid_prefix());
        let mut digits: Vec<u8> = Vec::new();
        let mut i: usize = 4;
        while i < text.len()
            invariant
                4 <= i <= text@.len(),
                digits@ == text@.subrange(4, i as int),
            decreases text@.len() - i,
        {
            digits.push(text[i]);
            assert(text@.subrange(4, i as int).push(text@[i as int]) =~= text@.subrange(4, i + 1));
            i += 1;
        }
        assert(digits@ =~= text@.skip(4));
        match hex_decode(digits.as_slice()) {
            Err(fault) => Err(CidError::InvalidHex(fault)),
            Ok(hash) => {
                if hash.len() != 32 {
                    return Err(CidError::InvalidHashLength);
                }
                let prefix: [u8; 4] = [99u8, 105u8, 100u8, 58u8];
                assert(prefix@ =~= cid_prefix());
                Ok(ContentId::new(prefix.as_slice(), hash.as_slice()))
            },
        }
    }
}

/// Reading the text of an identifier gives the identifier back: the text of
/// a 32-byte hash is accepted, and its digits stand for the hash.
pub proof fn lemma_cid_round_trip(hash: Seq<u8>)
    requires
        hash.len() == 32,
    ensures
        cid_error(cid_text(hash)) is None,
        hex_value(cid_text(hash).skip(4)) == hash,
{
    let text = cid_text(hash);
    let digits = hex_text(hash);
    assert(text.take(4) =~= cid_prefix());
    assert(text.skip(4) =~= digits);
    assert forall|i: int| 0 <= i < digits.len() implies hex_digit_value(digits[i]) is Some by {
        let b = hash[i / 2];
        assert(b / 16 < 16 && b % 16 < 16);
    }
    assert forall|k: int| 0 <= k < 32 implies hex_value(digits)[k] == hash[k] by {
        let b = hash[k];
        assert((2 * k) / 2 == k && (2 * k + 1) / 2 == k);
        assert((2 * k) % 2 == 0 && (2 * k + 1) % 2 == 1);
        assert(digits[2 * k] == hex_digit(b / 16));
        assert(digits[2 * k + 1] == hex_digit(b % 16));
        assert(hex_digit_value(hex_digit(b / 16)) == Some((b / 16) as u8));
        assert(hex_digit_value(hex_digit(b % 16)) == Some((b % 16) as u8));
        assert((b / 16) * 16 + b % 16 == b);
    }
    assert(hex_value(digits) =~= hash);
}

} // verus!
