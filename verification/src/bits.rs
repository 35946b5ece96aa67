//! Reading big-endian bit streams (most significant bit of each byte first).

use bitstream_io::{BigEndian, BitRead, BitReader};
use std::io::Cursor;
use vstd::prelude::*;

verus! {

/// Bit `i` of `data`, counting from the most significant bit of `data[0]`.
pub open spec fn bit_at(data: Seq<u8>, i: int) -> bool {
    ((data[i / 8] >> ((7 - i % 8) as u8)) & 1u8) == 1u8
}

/// The unsigned number formed by the `n` bits of `data` starting at bit `i`,
/// most significant bit first.
pub open spec fn bits_value(data: Seq<u8>, i: int, n: nat) -> nat
    decreases n,
{
    if n == 0 {
        0
    } else {
        2 * bits_value(data, i, (n - 1) as nat) + if bit_at(data, i + n - 1) {
            1nat
        } else {
            0nat
        }
    }
}

/// `bitstream_io::BitReader::read_bit`, after `BitRead::skip` of `skip` bits, on a
/// big-endian reader over `data`: the result is bit `skip` of `data`, counting from
/// the most significant bit of the first byte.
#[verifier::external_body]
fn read_bit_after(data: &[u8], skip: u32) -> (bit: bool)
    requires
        skip < 8,
        data@.len() >= 1,
    ensures
        bit == bit_at(data@, skip as int),
{
    let mut reader = BitReader::endian(Cursor::new(data), BigEndian);
    reader.skip(skip).unwrap();
    reader.read_bit().unwrap()
}

/// `bitstream_io::BitReader::read::<u8>(8)`, after `BitRead::skip` of `skip` bits, on
/// a big-endian reader over `data`: the result is the 8 bits starting at bit `skip`,
/// most significant first.
#[verifier::external_body]
fn read_u8_after(data: &[u8], skip: u32) -> (v: u8)
    requires
        skip < 8,
        8 + skip <= 8 * data@.len(),
    ensures
        v as nat == bits_value(data@, skip as int, 8),
{
    let mut reader = BitReader::endian(Cursor::new(data), BigEndian);
    reader.skip(skip).unwrap();
    reader.read::<u8>(8).unwrap()
}

/// A bit of a suffix of `data` that starts at byte `b` is the bit of `data` that lies
/// `8 * b` bits further on.
proof fn lemma_bit_of_suffix(data: Seq<u8>, b: int, j: int)
    requires
        0 <= b < data.len(),
        0 <= j < 8 * (data.len() - b),
    ensures
        bit_at(data.subrange(b, data.len() as int), j) == bit_at(data, 8 * b + j),
{
    assert((8 * b + j) / 8 == b + j / 8);
    assert((8 * b + j) % 8 == j % 8);
}

proof fn lemma_bits_value_of_suffix(data: Seq<u8>, b: int, j: int, n: nat)
    requires
        0 <= b < data.len(),
        0 <= j,
        j + n <= 8 * (data.len() - b),
    ensures
        bits_value(data.subrange(b, data.len() as int), j, n) == bits_value(data, 8 * b + j, n),
    decreases n,
{
    if n > 0 {
        lemma_bits_value_of_suffix(data, b, j, (n - 1) as nat);
        lemma_bit_of_suffix(data, b, j + n - 1);
    }
}

/// The bit at position `byte * 8 + bit` of `data`.
pub fn read_bit(data: &[u8], byte: usize, bit: u8) -> (v: bool)
    requires
        byte < data@.len(),
        bit < 8,
    ensures
        v == bit_at(data@, 8 * byte + bit),
{
    let suffix = &data[byte..data.len()];
    proof {
        lemma_bit_of_suffix(data@, byte as int, bit as int);
    }
    read_bit_after(suffix, bit as u32)
}

/// The 8 bits starting at position `byte * 8 + bit` of `data`, as a number.
pub fn read_bits_u8(data: &[u8], byte: usize, bit: u8) -> (v: u8)
    requires
        byte < data@.len(),
        bit < 8,
        8 * byte + bit + 8 <= 8 * data@.len(),
    ensures
        v as nat == bits_value(data@, 8 * byte + bit, 8),
{
    let suffix = &data[byte..data.len()];
    proof {
        lemma_bits_value_of_suffix(data@, byte as int, bit as int, 8);
    }
    read_u8_after(suffix, bit as u32)
}

} // verus!
