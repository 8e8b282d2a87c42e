//! Integers as little-endian bytes, as they stand in datagrams.

use vstd::prelude::*;
use vstd::slice::*;

verus! {

/// The `count` low bytes of `value`, the lowest first.
pub open spec fn le_bytes(value: nat, count: nat) -> Seq<u8>
    decreases count,
{
    if count == 0 {
        Seq::empty()
    } else {
        seq![(value % 256) as u8] + le_bytes(value / 256, (count - 1) as nat)
    }
}

/// The number whose bytes, the lowest first, are `bytes`.
pub open spec fn le_value(bytes: Seq<u8>) -> nat
    decreases bytes.len(),
{
    if bytes.len() == 0 {
        0
    } else {
        bytes[0] as nat + 256 * le_value(bytes.drop_first())
    }
}

/// The number of values that `count` bytes can hold: 256 to the power of
/// `count`.
pub open spec fn radix(count: nat) -> nat
    decreases count,
{
    if count == 0 {
        1
    } else {
        256 * radix((count - 1) as nat)
    }
}

/// How many values four, eight and sixteen bytes hold.
pub proof fn lemma_radix_values()
    ensures
        radix(4) == 0x1_0000_0000,
        radix(8) == 0x1_0000_0000_0000_0000,
        radix(16) == 0x1_0000_0000_0000_0000_0000_0000_0000_0000,
{
    reveal_with_fuel(radix, 9);
    assert(radix(4) == 0x1_0000_0000);
    assert(radix(8) == 0x1_0000_0000 * radix(4));
    assert(radix(12) == 0x1_0000_0000 * radix(8));
    assert(radix(16) == 0x1_0000_0000 * radix(12));
}

/// More bytes hold more values.
pub proof fn lemma_radix_grows(fewer: nat, more: nat)
    requires
        fewer <= more,
    ensures
        0 < radix(fewer) <= radix(more),
    decreases more,
{
    if more == 0 {
    } else if fewer == more {
        lemma_radix_grows((fewer - 1) as nat, (more - 1) as nat);
    } else {
        lemma_radix_grows(fewer, (more - 1) as nat);
    }
}

/// `le_bytes` gives as many bytes as asked for.
pub proof fn lemma_le_bytes_len(value: nat, count: nat)
    ensures
        le_bytes(value, count).len() == count,
    decreases count,
{
    if count > 0 {
        lemma_le_bytes_len(value / 256, (count - 1) as nat);
    }
}

/// What bytes stand for fits in as many bytes.
pub proof fn lemma_le_value_bound(bytes: Seq<u8>)
    ensures
        le_value(bytes) < radix(bytes.len()),
    decreases bytes.len(),
{
    if bytes.len() > 0 {
        lemma_le_value_bound(bytes.drop_first());
    }
}

/// The bytes of a number that fits stand for the number.
pub proof fn lemma_le_value_of_bytes(value: nat, count: nat)
    requires
        value < radix(count),
    ensures
        le_value(le_bytes(value, count)) == value,
    decreases count,
{
    let bytes = le_bytes(value, count);
    lemma_le_bytes_len(value, count);
    if count > 0 {
        let rest = le_bytes(value / 256, (count - 1) as nat);
        lemma_le_value_of_bytes(value / 256, (count - 1) as nat);
        assert(bytes.drop_first() =~= rest);
        assert(bytes[0] == (value % 256) as u8);
    }
}

/// Bytes are the bytes of the number they stand for: no number has two
/// encodings of one length.
pub proof fn lemma_le_bytes_of_value(bytes: Seq<u8>)
    ensures
        le_bytes(le_value(bytes), bytes.len()) == bytes,
    decreases bytes.len(),
{
    if bytes.len() > 0 {
        let value = le_value(bytes);
        let rest = bytes.drop_first();
        lemma_le_bytes_of_value(rest);
        assert(value % 256 == bytes[0] as nat);
        assert(value / 256 == le_value(rest));
        assert(le_bytes(value, bytes.len()) =~= bytes);
    }
}

/// Appends the `count` low bytes of `value` to `out`, the lowest first.
pub fn put_le(out: &mut Vec<u8>, value: u128, count: usize)
    ensures
        final(out)@ == old(out)@ + le_bytes(value as nat, count as nat),
        final(out)@.len() == old(out)@.len() + count,
    decreases count,
{
    if count > 0 {
        out.push((value % 256) as u8);
        put_le(out, value / 256, count - 1);
    }
    proof {
        lemma_le_bytes_len(value as nat, count as nat);
        assert(out@ =~= old(out)@ + le_bytes(value as nat, count as nat));
    }
}

/// The number whose bytes, the lowest first, are `bytes`.
pub fn get_le(bytes: &[u8]) -> (value: u128)
    requires
        bytes@.len() <= 16,
    ensures
        value == le_value(bytes@),
    decreases bytes@.len(),
{
    let len = bytes.len();
    if len == 0 {
        0
    } else {
        let rest = slice_subrange(bytes, 1, len);
        let high = get_le(rest);
        proof {
            assert(rest@ =~= bytes@.drop_first());
            lemma_le_value_bound(rest@);
            lemma_radix_grows(rest@.len(), 15);
            lemma_radix_values();
            assert(radix(16) == 256 * radix(15));
        }
        bytes[0] as u128 + 256 * high
    }
}

/// The four bytes of `value`, the lowest first.
pub open spec fn u32_bytes(value: u32) -> Seq<u8> {
    le_bytes(value as nat, 4)
}

/// The eight bytes of `value`, the lowest first.
pub open spec fn u64_bytes(value: u64) -> Seq<u8> {
    le_bytes(value as nat, 8)
}

/// The sixteen bytes of `value`, the lowest first.
pub open spec fn u128_bytes(value: u128) -> Seq<u8> {
    le_bytes(value as nat, 16)
}

/// The number that four bytes stand for.
pub open spec fn u32_of(bytes: Seq<u8>) -> u32
    recommends
        bytes.len() == 4,
{
    le_value(bytes) as u32
}

/// The number that eight bytes stand for.
pub open spec fn u64_of(bytes: Seq<u8>) -> u64
    recommends
        bytes.len() == 8,
{
    le_value(bytes) as u64
}

/// The number that sixteen bytes stand for.
pub open spec fn u128_of(bytes: Seq<u8>) -> u128
    recommends
        bytes.len() == 16,
{
    le_value(bytes) as u128
}

/// Four bytes and 32-bit numbers stand for each other, one for one.
pub proof fn lemma_u32_bytes()
    ensures
        forall|value: u32|
            #![trigger u32_bytes(value)]
            u32_bytes(value).len() == 4 && u32_of(u32_bytes(value)) == value,
        forall|bytes: Seq<u8>| bytes.len() == 4 ==> #[trigger] u32_bytes(u32_of(bytes)) == bytes,
{
    lemma_radix_values();
    assert forall|value: u32| #![trigger u32_bytes(value)]
        u32_bytes(value).len() == 4 && u32_of(u32_bytes(value)) == value by {
        lemma_le_bytes_len(value as nat, 4);
        lemma_le_value_of_bytes(value as nat, 4);
    }
    assert forall|bytes: Seq<u8>| bytes.len() == 4 implies #[trigger] u32_bytes(u32_of(bytes))
        == bytes by {
        lemma_le_value_bound(bytes);
        lemma_le_bytes_of_value(bytes);
    }
}

/// Eight bytes and 64-bit numbers stand for each other, one for one.
pub proof fn lemma_u64_bytes()
    ensures
        forall|value: u64|
            #![trigger u64_bytes(value)]
            u64_bytes(value).len() == 8 && u64_of(u64_bytes(value)) == value,
        forall|bytes: Seq<u8>| bytes.len() == 8 ==> #[trigger] u64_bytes(u64_of(bytes)) == bytes,
{
    lemma_radix_values();
    assert forall|value: u64| #![trigger u64_bytes(value)]
        u64_bytes(value).len() == 8 && u64_of(u64_bytes(value)) == value by {
        lemma_le_bytes_len(value as nat, 8);
        lemma_le_value_of_bytes(value as nat, 8);
    }
    assert forall|bytes: Seq<u8>| bytes.len() == 8 implies #[trigger] u64_bytes(u64_of(bytes))
        == bytes by {
        lemma_le_value_bound(bytes);
        lemma_le_bytes_of_value(bytes);
    }
}

/// Sixteen bytes and 128-bit numbers stand for each other, one for one.
pub proof fn lemma_u128_bytes()
    ensures
        forall|value: u128|
            #![trigger u128_bytes(value)]
            u128_bytes(value).len() == 16 && u128_of(u128_bytes(value)) == value,
        forall|bytes: Seq<u8>|
            bytes.len() == 16 ==> #[trigger] u128_bytes(u128_of(bytes)) == bytes,
{
    lemma_radix_values();
    assert forall|value: u128| #![trigger u128_bytes(value)]
        u128_bytes(value).len() == 16 && u128_of(u128_bytes(value)) == value by {
        lemma_le_bytes_len(value as nat, 16);
        lemma_le_value_of_bytes(value as nat, 16);
    }
    assert forall|bytes: Seq<u8>| bytes.len() == 16 implies #[trigger] u128_bytes(u128_of(bytes))
        == bytes by {
        lemma_le_value_bound(bytes);
        lemma_le_bytes_of_value(bytes);
    }
}

/// Appends the four bytes of `value` to `out`.
pub fn put_u32(out: &mut Vec<u8>, value: u32)
    ensures
        final(out)@ == old(out)@ + u32_bytes(value),
        final(out)@.len() == old(out)@.len() + 4,
{
    put_le(out, value as u128, 4);
}

/// Appends the eight bytes of `value` to `out`.
pub fn put_u64(out: &mut Vec<u8>, value: u64)
    ensures
        final(out)@ == old(out)@ + u64_bytes(value),
        final(out)@.len() == old(out)@.len() + 8,
{
    put_le(out, value as u128, 8);
}

/// Appends the sixteen bytes of `value` to `out`.
pub fn put_u128(out: &mut Vec<u8>, value: u128)
    ensures
        final(out)@ == old(out)@ + u128_bytes(value),
        final(out)@.len() == old(out)@.len() + 16,
{
    put_le(out, value, 16);
}

/// The number that the four bytes `bytes` stand for.
pub fn get_u32(bytes: &[u8]) -> (value: u32)
    requires
        bytes@.len() == 4,
    ensures
        value == u32_of(bytes@),
{
    proof {
        lemma_le_value_bound(bytes@);
        lemma_radix_values();
    }
    get_le(bytes) as u32
}

/// The number that the eight bytes `bytes` stand for.
pub fn get_u64(bytes: &[u8]) -> (value: u64)
    requires
        bytes@.len() == 8,
    ensures
        value == u64_of(bytes@),
{
    proof {
        lemma_le_value_bound(bytes@);
        lemma_radix_values();
    }
    get_le(bytes) as u64
}

/// The number that the sixteen bytes `bytes` stand for.
pub fn get_u128(bytes: &[u8]) -> (value: u128)
    requires
        bytes@.len() == 16,
    ensures
        value == u128_of(bytes@),
{
    get_le(bytes)
}

} // verus!
