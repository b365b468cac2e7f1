//! Eight-byte words: how timestamps and lengths are laid down in a log.

use vstd::prelude::*;

verus! {

/// The number that eight bytes stand for, least significant byte first.
pub open spec fn word_value(bytes: Seq<u8>) -> nat
    recommends
        bytes.len() == 8,
{
    let b7 = bytes[7] as nat;
    let b6 = bytes[6] as nat + 0x100 * b7;
    let b5 = bytes[5] as nat + 0x100 * b6;
    let b4 = bytes[4] as nat + 0x100 * b5;
    let b3 = bytes[3] as nat + 0x100 * b4;
    let b2 = bytes[2] as nat + 0x100 * b3;
    let b1 = bytes[1] as nat + 0x100 * b2;
    bytes[0] as nat + 0x100 * b1
}

/// The eight bytes that stand for a number below 2^64, least significant byte
/// first.
pub open spec fn word_bytes(value: nat) -> Seq<u8>
    recommends
        value <= u64::MAX,
{
    let v1 = value / 0x100;
    let v2 = v1 / 0x100;
    let v3 = v2 / 0x100;
    let v4 = v3 / 0x100;
    let v5 = v4 / 0x100;
    let v6 = v5 / 0x100;
    let v7 = v6 / 0x100;
    seq![
        (value % 0x100) as u8,
        (v1 % 0x100) as u8,
        (v2 % 0x100) as u8,
        (v3 % 0x100) as u8,
        (v4 % 0x100) as u8,
        (v5 % 0x100) as u8,
        (v6 % 0x100) as u8,
        (v7 % 0x100) as u8,
    ]
}

/// The word that holds a timestamp: the timestamp itself where it is not
/// negative, and 2^64 more than it where it is (two's complement).
pub open spec fn timestamp_word(timestamp: i64) -> nat {
    if timestamp >= 0 {
        timestamp as nat
    } else {
        (timestamp + 0x1_0000_0000_0000_0000) as nat
    }
}

/// The timestamp that a word holds.
pub open spec fn word_timestamp(word: nat) -> i64
    recommends
        word <= u64::MAX,
{
    if word < 0x8000_0000_0000_0000 {
        word as i64
    } else {
        (word - 0x1_0000_0000_0000_0000) as i64
    }
}

/// The bytes of a timestamp in a log.
pub open spec fn timestamp_bytes(timestamp: i64) -> Seq<u8> {
    word_bytes(timestamp_word(timestamp))
}

/// The timestamp that the first eight bytes of `bytes` hold.
pub open spec fn timestamp_value(bytes: Seq<u8>) -> i64
    recommends
        bytes.len() >= 8,
{
    word_timestamp(word_value(bytes.subrange(0, 8)))
}

/// The length that the first eight bytes of `bytes` hold.
pub open spec fn length_value(bytes: Seq<u8>) -> nat
    recommends
        bytes.len() >= 8,
{
    word_value(bytes.subrange(0, 8))
}

/// A word has eight bytes, and reading them gives the number back.
pub proof fn lemma_word_round_trip(value: nat)
    requires
        value <= u64::MAX,
    ensures
        word_bytes(value).len() == 8,
        word_value(word_bytes(value)) == value,
{
}

/// A timestamp comes back unchanged from the word that holds it.
pub proof fn lemma_timestamp_round_trip(timestamp: i64)
    ensures
        timestamp_word(timestamp) <= u64::MAX,
        word_timestamp(timestamp_word(timestamp)) == timestamp,
        timestamp_bytes(timestamp).len() == 8,
        timestamp_value(timestamp_bytes(timestamp)) == timestamp,
{
    lemma_word_round_trip(timestamp_word(timestamp));
    assert(timestamp_bytes(timestamp).subrange(0, 8) =~= timestamp_bytes(timestamp));
}

/// Appends the eight bytes of `value` to `out`.
pub fn put_word(out: &mut Vec<u8>, value: u64)
    ensures
        final(out)@ == old(out)@ + word_bytes(value as nat),
{
    let v1: u64 = value / 0x100;
    let v2: u64 = v1 / 0x100;
    let v3: u64 = v2 / 0x100;
    let v4: u64 = v3 / 0x100;
    let v5: u64 = v4 / 0x100;
    let v6: u64 = v5 / 0x100;
    let v7: u64 = v6 / 0x100;
    out.push((value % 0x100) as u8);
    out.push((v1 % 0x100) as u8);
    out.push((v2 % 0x100) as u8);
    out.push((v3 % 0x100) as u8);
    out.push((v4 % 0x100) as u8);
    out.push((v5 % 0x100) as u8);
    out.push((v6 % 0x100) as u8);
    out.push((v7 % 0x100) as u8);
    assert(out@ =~= old(out)@ + word_bytes(value as nat));
}

/// Reads the word that starts at `at`.
pub fn get_word(bytes: &[u8], at: usize) -> (value: u64)
    requires
        at + 8 <= bytes.len(),
    ensures
        value == word_value(bytes@.subrange(at as int, at + 8)),
{
    let b7: u64 = bytes[at + 7] as u64;
    let b6: u64 = bytes[at + 6] as u64 + 0x100 * b7;
    let b5: u64 = bytes[at + 5] as u64 + 0x100 * b6;
    let b4: u64 = bytes[at + 4] as u64 + 0x100 * b5;
    let b3: u64 = bytes[at + 3] as u64 + 0x100 * b4;
    let b2: u64 = bytes[at + 2] as u64 + 0x100 * b3;
    let b1: u64 = bytes[at + 1] as u64 + 0x100 * b2;
    bytes[at] as u64 + 0x100 * b1
}

/// The word that holds `timestamp`.
pub fn timestamp_to_word(timestamp: i64) -> (word: u64)
    ensures
        word == timestamp_word(timestamp),
{
    if timestamp >= 0 {
        timestamp as u64
    } else {
        let low: i64 = timestamp + i64::MAX + 1;
        low as u64 + 0x8000_0000_0000_0000u64
    }
}

/// The timestamp that `word` holds.
pub fn word_to_timestamp(word: u64) -> (timestamp: i64)
    ensures
        timestamp == word_timestamp(word as nat),
{
    if word < 0x8000_0000_0000_0000u64 {
        word as i64
    } else {
        let low: u64 = word - 0x8000_0000_0000_0000u64;
        low as i64 + i64::MIN
    }
}

} // verus!
