//! Where chunks are kept on disk.
//!
//! A chunk is one file, `<storage root>/<content hash>/<chunk index>`: the
//! hash in hexadecimal, the index in decimal. That a file is absent is the
//! sign that its chunk has to be asked for.

use crate::chunks::append_bytes;
use crate::hash::ContentHash;
use vstd::prelude::*;
use vstd::slice::*;

verus! {

/// The ASCII code of `/`.
pub const SEPARATOR: u8 = 47;

/// The decimal text of `n`, without leading zeros.
pub open spec fn decimal(n: nat) -> Seq<u8>
    decreases n,
{
    if n < 10 {
        seq![(48 + n) as u8]
    } else {
        decimal(n / 10).push((48 + n % 10) as u8)
    }
}

/// The number that the decimal digits `digits` stand for.
pub open spec fn value_of(digits: Seq<u8>) -> nat
    decreases digits.len(),
{
    if digits.len() == 0 {
        0
    } else {
        value_of(digits.drop_last()) * 10 + (digits.last() - 48) as nat
    }
}

/// Whether `text` is a decimal number without leading zeros.
pub open spec fn is_decimal(text: Seq<u8>) -> bool {
    &&& text.len() > 0
    &&& forall|i: int| 0 <= i < text.len() ==> 48 <= #[trigger] text[i] <= 57
    &&& (text.len() > 1 ==> text[0] != 48)
}

/// The chunk index that the file name `name` stands for, if it is one.
pub open spec fn index_named(name: Seq<u8>) -> Option<u64> {
    if is_decimal(name) && value_of(name) <= u64::MAX {
        Some(value_of(name) as u64)
    } else {
        None
    }
}

/// The path of the chunk directory of `hash` under `root`.
pub open spec fn dir_path(root: Seq<u8>, hash: ContentHash) -> Seq<u8> {
    root + seq![SEPARATOR] + hash.name()
}

/// The path of the file of chunk `index` of `hash` under `root`.
pub open spec fn chunk_path(root: Seq<u8>, hash: ContentHash, index: u64) -> Seq<u8> {
    dir_path(root, hash) + seq![SEPARATOR] + decimal(index as nat)
}

/// The decimal text of a number is a decimal number that stands for it.
pub proof fn lemma_decimal_names(n: nat)
    ensures
        is_decimal(decimal(n)),
        value_of(decimal(n)) == n,
        n > 0 ==> decimal(n)[0] != 48,
    decreases n,
{
    let text = decimal(n);
    if n < 10 {
        assert(text.drop_last() =~= Seq::<u8>::empty());
        assert(value_of(text.drop_last()) == 0);
    } else {
        lemma_decimal_names(n / 10);
        let front = decimal(n / 10);
        assert(text.drop_last() =~= front);
        assert(text[0] == front[0]);
        assert forall|i: int| 0 <= i < text.len() implies 48 <= #[trigger] text[i] <= 57 by {
            if i < front.len() {
                assert(text[i] == front[i]);
            }
        }
    }
}

/// A decimal number is the decimal text of what it stands for: no number
/// has two names.
pub proof fn lemma_decimal_unique(text: Seq<u8>)
    requires
        is_decimal(text),
    ensures
        decimal(value_of(text)) == text,
        text.len() > 1 ==> value_of(text) >= 10,
        text[0] != 48 ==> value_of(text) > 0,
    decreases text.len(),
{
    let front = text.drop_last();
    let digit = (text.last() - 48) as nat;
    if text.len() == 1 {
        assert(front =~= Seq::<u8>::empty());
        assert(value_of(front) == 0);
        assert(decimal(digit) =~= text);
    } else {
        assert(is_decimal(front)) by {
            assert forall|i: int| 0 <= i < front.len() implies 48 <= #[trigger] front[i] <= 57 by {
                assert(front[i] == text[i]);
            }
            assert(front[0] == text[0]);
        }
        lemma_decimal_unique(front);
        let high = value_of(front);
        assert(high > 0);
        let n = high * 10 + digit;
        assert(n / 10 == high && n % 10 == digit);
        assert(decimal(n) == decimal(high).push((48 + digit) as u8));
        assert(decimal(n) =~= text);
    }
}

/// A decimal number stands for at least what any of its beginnings stands
/// for.
proof fn lemma_value_grows(text: Seq<u8>, k: int)
    requires
        0 <= k <= text.len(),
        forall|i: int| 0 <= i < text.len() ==> 48 <= #[trigger] text[i] <= 57,
    ensures
        value_of(text.take(k)) <= value_of(text),
    decreases text.len() - k,
{
    if k == text.len() {
        assert(text.take(k) =~= text);
    } else {
        lemma_value_grows(text, k + 1);
        assert(text.take(k + 1).drop_last() =~= text.take(k));
    }
}

/// Appends the decimal text of `n` to `out`.
fn put_decimal(out: &mut Vec<u8>, n: u64)
    ensures
        final(out)@ == old(out)@ + decimal(n as nat),
    decreases n,
{
    if n >= 10 {
        put_decimal(out, n / 10);
    }
    out.push(48 + (n % 10) as u8);
    assert(out@ =~= old(out)@ + decimal(n as nat));
}

/// The decimal text of `n`, without leading zeros.
pub fn decimal_text(n: u64) -> (text: Vec<u8>)
    ensures
        text@ == decimal(n as nat),
{
    let mut text: Vec<u8> = Vec::new();
    put_decimal(&mut text, n);
    assert(text@ =~= decimal(n as nat));
    text
}

/// The file name of chunk `index`: the index in decimal.
pub fn chunk_file_name(index: u64) -> (name: Vec<u8>)
    ensures
        name@ == decimal(index as nat),
        index_named(name@) == Some(index),
{
    let mut name: Vec<u8> = Vec::new();
    put_decimal(&mut name, index);
    proof {
        lemma_decimal_names(index as nat);
        assert(name@ =~= decimal(index as nat));
    }
    name
}

/// The chunk index that the file name `name` stands for: `name` must be a
/// decimal number without leading zeros that fits 64 bits. Any other name
/// is no chunk's.
pub fn parse_chunk_index(name: &[u8]) -> (index: Option<u64>)
    ensures
        index == index_named(name@),
        index matches Some(i) ==> decimal(i as nat) == name@,
{
    let len = name.len();
    if len == 0 {
        return None;
    }
    if len > 1 && name[0] == 48 {
        return None;
    }
    let mut value: u64 = 0;
    let mut i: usize = 0;
    assert(name@.take(0) =~= Seq::<u8>::empty());
    while i < len
        invariant
            len == name@.len(),
            i <= len,
            forall|k: int| 0 <= k < i ==> 48 <= #[trigger] name@[k] <= 57,
            value == value_of(name@.take(i as int)),
        decreases len - i,
    {
        let byte = name[i];
        if byte < 48 || byte > 57 {
            return None;
        }
        let digit = (byte - 48) as u64;
        proof {
            assert(name@.take(i + 1).drop_last() =~= name@.take(i as int));
            assert(name@.take(i + 1).last() == byte);
        }
        if value > (u64::MAX - digit) / 10 {
            proof {
                if is_decimal(name@) {
                    lemma_value_grows(name@, i + 1);
                }
            }
            return None;
        }
        value = value * 10 + digit;
        i = i + 1;
    }
    proof {
        assert(name@.take(len as int) =~= name@);
        lemma_decimal_unique(name@);
    }
    Some(value)
}

/// The path of the chunk directory of `hash` under `root`.
pub fn chunk_dir_path(root: &[u8], hash: ContentHash) -> (path: Vec<u8>)
    ensures
        path@ == dir_path(root@, hash),
{
    let mut path = slice_to_vec(root);
    path.push(SEPARATOR);
    let name = hash.to_hex();
    append_bytes(&mut path, name.as_slice());
    assert(path@ =~= dir_path(root@, hash));
    path
}

/// The path of the file of chunk `index` of `hash` under `root`.
pub fn chunk_file_path(root: &[u8], hash: ContentHash, index: u64) -> (path: Vec<u8>)
    ensures
        path@ == chunk_path(root@, hash, index),
{
    let mut path = chunk_dir_path(root, hash);
    path.push(SEPARATOR);
    let name = chunk_file_name(index);
    append_bytes(&mut path, name.as_slice());
    assert(path@ =~= chunk_path(root@, hash, index));
    path
}

} // verus!
