//! Content hashes: the digest of a file's bytes, which names a transfer and
//! the directory its chunks are kept in.

use crate::endian::{get_u128, lemma_u128_bytes, put_u128, u128_bytes, u128_of};
use vstd::prelude::*;

verus! {

/// Number of bytes in a content hash.
pub const HASH_LEN: usize = 16;

/// The BLAKE2s digest of `data` with a sixteen-byte output and no key.
pub uninterp spec fn blake2s_128(data: Seq<u8>) -> Seq<u8>;

/// Calls `blake2_rfc::blake2s::blake2s` with an output length of sixteen and
/// an empty key. The digest is a function of the bytes alone, and the crate
/// hands back as many bytes as were asked for. Neither is proved here.
#[verifier::external_body]
fn blake2s_digest(data: &[u8]) -> (digest: Vec<u8>)
    ensures
        digest@ == blake2s_128(data@),
        digest@.len() == 16,
{
    blake2_rfc::blake2s::blake2s(16, &[], data).as_bytes().to_vec()
}

/// The digest of a file's full content.
///
/// The sixteen digest bytes are kept as one integer, the first byte lowest.
#[derive(Clone, Copy, Debug, PartialEq, Eq, Hash, Structural)]
pub struct ContentHash {
    pub value: u128,
}

/// The content hash of `data`.
pub open spec fn content_hash(data: Seq<u8>) -> ContentHash {
    ContentHash { value: u128_of(blake2s_128(data)) }
}

/// The ASCII code of the lower-case hexadecimal digit for `nibble`.
pub open spec fn hex_digit(nibble: int) -> u8 {
    if nibble < 10 {
        (48 + nibble) as u8
    } else {
        (87 + nibble) as u8
    }
}

/// The hexadecimal text of `bytes`: two lower-case digits for each byte, the
/// high half first.
pub open spec fn hex_of(bytes: Seq<u8>) -> Seq<u8> {
    Seq::new(
        2 * bytes.len(),
        |i: int|
            if i % 2 == 0 {
                hex_digit(bytes[i / 2] as int / 16)
            } else {
                hex_digit(bytes[i / 2] as int % 16)
            },
    )
}

/// Whether `byte` is the ASCII code of a lower-case hexadecimal digit.
pub open spec fn is_hex(byte: u8) -> bool {
    (48 <= byte <= 57) || (97 <= byte <= 102)
}

/// The value of the hexadecimal digit with the ASCII code `digit`.
pub open spec fn hex_value(digit: u8) -> int {
    if digit <= 57 {
        digit - 48
    } else {
        digit - 87
    }
}

/// The bytes that the hexadecimal text `text` stands for: one byte for each
/// two digits, the high half first.
pub open spec fn unhex(text: Seq<u8>) -> Seq<u8> {
    Seq::new(
        text.len() / 2,
        |i: int| (hex_value(text[2 * i]) * 16 + hex_value(text[2 * i + 1])) as u8,
    )
}

/// The hash whose chunk directory has the name `text`, if `text` is the
/// name of one: thirty-two lower-case hexadecimal digits.
pub open spec fn hash_named(text: Seq<u8>) -> Option<ContentHash> {
    if text.len() == 32 && (forall|i: int| 0 <= i < 32 ==> is_hex(#[trigger] text[i])) {
        Some(ContentHash { value: u128_of(unhex(text)) })
    } else {
        None
    }
}

/// Hexadecimal text of an even length is the text of the bytes it stands
/// for.
pub proof fn lemma_hex_of_unhex(text: Seq<u8>)
    requires
        text.len() % 2 == 0,
        forall|i: int| 0 <= i < text.len() ==> is_hex(#[trigger] text[i]),
    ensures
        hex_of(unhex(text)) == text,
{
    let bytes = unhex(text);
    assert(hex_of(bytes).len() == text.len());
    assert forall|i: int| 0 <= i < text.len() implies hex_of(bytes)[i] == text[i] by {
        let k = i / 2;
        let high = hex_value(text[2 * k]);
        let low = hex_value(text[2 * k + 1]);
        assert(is_hex(text[2 * k]) && is_hex(text[2 * k + 1]));
        assert(0 <= high < 16 && 0 <= low < 16);
        assert(bytes[k] == high * 16 + low);
        assert((high * 16 + low) / 16 == high);
        assert((high * 16 + low) % 16 == low);
    }
    assert(hex_of(bytes) =~= text);
}

/// The hexadecimal text of bytes stands for those bytes.
pub proof fn lemma_unhex_of_hex(bytes: Seq<u8>)
    ensures
        hex_of(bytes).len() == 2 * bytes.len(),
        forall|i: int| 0 <= i < 2 * bytes.len() ==> is_hex(#[trigger] hex_of(bytes)[i]),
        unhex(hex_of(bytes)) == bytes,
{
    let text = hex_of(bytes);
    assert forall|i: int| 0 <= i < 2 * bytes.len() implies is_hex(#[trigger] text[i]) by {
        let byte = bytes[i / 2] as int;
        assert(0 <= byte / 16 < 16 && 0 <= byte % 16 < 16);
    }
    assert forall|k: int| 0 <= k < bytes.len() implies unhex(text)[k] == bytes[k] by {
        let byte = bytes[k] as int;
        assert((2 * k) / 2 == k && (2 * k) % 2 == 0);
        assert((2 * k + 1) / 2 == k && (2 * k + 1) % 2 == 1);
        assert(0 <= byte / 16 < 16 && 0 <= byte % 16 < 16);
        assert(hex_value(hex_digit(byte / 16)) == byte / 16);
        assert(hex_value(hex_digit(byte % 16)) == byte % 16);
        assert((byte / 16) * 16 + byte % 16 == byte);
    }
    assert(unhex(text) =~= bytes);
}

/// A hash and the name of its chunk directory stand for each other, one
/// for one.
pub proof fn lemma_hash_names(hash: ContentHash)
    ensures
        hash_named(hash.name()) == Some(hash),
{
    lemma_hash_bytes(hash);
    lemma_unhex_of_hex(hash.bytes());
}

impl ContentHash {
    /// The sixteen bytes of the hash.
    pub open spec fn bytes(self) -> Seq<u8> {
        u128_bytes(self.value)
    }

    /// The name of the hash's chunk directory: its bytes in hexadecimal.
    pub open spec fn name(self) -> Seq<u8> {
        hex_of(self.bytes())
    }

    /// Hashes the full content of a file.
    pub fn of(data: &[u8]) -> (hash: ContentHash)
        ensures
            hash == content_hash(data@),
    {
        let digest = blake2s_digest(data);
        ContentHash { value: get_u128(digest.as_slice()) }
    }

    /// Reads a hash from its sixteen bytes; any other length is refused.
    pub fn from_bytes(bytes: &[u8]) -> (hash: Option<ContentHash>)
        ensures
            bytes@.len() != 16 <==> hash is None,
            hash matches Some(h) ==> h.value == u128_of(bytes@) && h.bytes()
                == bytes@,
    {
        if bytes.len() == HASH_LEN {
            proof {
                lemma_u128_bytes();
            }
            Some(ContentHash { value: get_u128(bytes) })
        } else {
            None
        }
    }

    /// Reads a hash from the name of its chunk directory; anything but
    /// thirty-two lower-case hexadecimal digits is no such name.
    pub fn from_hex(text: &[u8]) -> (hash: Option<ContentHash>)
        ensures
            hash == hash_named(text@),
            hash matches Some(h) ==> h.name() == text@,
    {
        if text.len() != 32 {
            return None;
        }
        let mut bytes: Vec<u8> = Vec::new();
        let mut k: usize = 0;
        while k < 16
            invariant
                k <= 16,
                text@.len() == 32,
                bytes@.len() == k,
                forall|i: int| 0 <= i < 2 * k ==> is_hex(#[trigger] text@[i]),
                forall|i: int| 0 <= i < k ==> #[trigger] bytes@[i] == unhex(text@)[i],
            decreases 16 - k,
        {
            let high = match hex_value_of(text[2 * k]) {
                Some(value) => value,
                None => {
                    return None;
                },
            };
            let low = match hex_value_of(text[2 * k + 1]) {
                Some(value) => value,
                None => {
                    return None;
                },
            };
            bytes.push(high * 16 + low);
            k = k + 1;
        }
        proof {
            assert(bytes@ =~= unhex(text@));
            lemma_hex_of_unhex(text@);
            lemma_u128_bytes();
        }
        Some(ContentHash { value: get_u128(bytes.as_slice()) })
    }

    /// The sixteen bytes of the hash.
    pub fn to_bytes(&self) -> (bytes: Vec<u8>)
        ensures
            bytes@ == self.bytes(),
            bytes@.len() == 16,
    {
        let mut bytes: Vec<u8> = Vec::new();
        put_u128(&mut bytes, self.value);
        assert(bytes@ =~= self.bytes());
        bytes
    }

    /// The name of the hash's chunk directory.
    pub fn to_hex(&self) -> (text: Vec<u8>)
        ensures
            text@ == self.name(),
            text@.len() == 32,
    {
        let bytes = self.to_bytes();
        let mut text: Vec<u8> = Vec::new();
        let mut i: usize = 0;
        while i < 16
            invariant
                i <= 16,
                bytes@.len() == 16,
                text@.len() == 2 * i,
                forall|k: int| 0 <= k < 2 * i ==> #[trigger] text@[k] == hex_of(bytes@)[k],
            decreases 16 - i,
        {
            let byte: u8 = bytes[i];
            text.push(hex_digit_of(byte / 16));
            text.push(hex_digit_of(byte % 16));
            i = i + 1;
        }
        assert(text@ =~= hex_of(bytes@));
        text
    }
}

/// The value of the hexadecimal digit with the ASCII code `digit`, if it
/// is one.
fn hex_value_of(digit: u8) -> (value: Option<u8>)
    ensures
        value is Some <==> is_hex(digit),
        value matches Some(v) ==> v == hex_value(digit) && v < 16,
{
    if 48 <= digit && digit <= 57 {
        Some(digit - 48)
    } else if 97 <= digit && digit <= 102 {
        Some(digit - 87)
    } else {
        None
    }
}

/// The ASCII code of the hexadecimal digit for a value below sixteen.
fn hex_digit_of(nibble: u8) -> (digit: u8)
    requires
        nibble < 16,
    ensures
        digit == hex_digit(nibble as int),
{
    if nibble < 10 {
        48 + nibble
    } else {
        87 + nibble
    }
}

/// A hash has sixteen bytes, and they give the hash back.
pub proof fn lemma_hash_bytes(hash: ContentHash)
    ensures
        hash.bytes().len() == 16,
        u128_of(hash.bytes()) == hash.value,
{
    lemma_u128_bytes();
}

/// Two hashes with the same bytes are the same hash.
pub proof fn lemma_hash_bytes_injective(a: ContentHash, b: ContentHash)
    requires
        a.bytes() == b.bytes(),
    ensures
        a == b,
{
    lemma_hash_bytes(a);
    lemma_hash_bytes(b);
}

} // verus!
