//! Big-endian (network order) layout of the 64-bit integers on the wire.

use vstd::prelude::*;

verus! {

/// The eight bytes of `n`, most significant first.
pub open spec fn u64_be_bytes(n: u64) -> Seq<u8> {
    seq![
        ((n / 0x100_0000_0000_0000) % 0x100) as u8,
        ((n / 0x1_0000_0000_0000) % 0x100) as u8,
        ((n / 0x100_0000_0000) % 0x100) as u8,
        ((n / 0x1_0000_0000) % 0x100) as u8,
        ((n / 0x100_0000) % 0x100) as u8,
        ((n / 0x1_0000) % 0x100) as u8,
        ((n / 0x100) % 0x100) as u8,
        (n % 0x100) as u8,
    ]
}

/// The integer whose big-endian bytes are the first eight bytes of `b`.
pub open spec fn u64_from_be_bytes(b: Seq<u8>) -> u64
    recommends
        b.len() >= 8,
{
    (b[0] * 0x100_0000_0000_0000 + b[1] * 0x1_0000_0000_0000 + b[2] * 0x100_0000_0000 + b[3]
        * 0x1_0000_0000 + b[4] * 0x100_0000 + b[5] * 0x1_0000 + b[6] * 0x100 + b[7]) as u64
}

/// The two's complement of `n` as an unsigned 64-bit integer.
pub open spec fn i64_to_unsigned(n: i64) -> u64 {
    if n >= 0 {
        n as u64
    } else {
        (n + 0x1_0000_0000_0000_0000) as u64
    }
}

/// The signed integer whose two's complement is `u`.
pub open spec fn i64_from_unsigned(u: u64) -> i64 {
    if u < 0x8000_0000_0000_0000 {
        u as i64
    } else {
        (u - 0x1_0000_0000_0000_0000) as i64
    }
}

/// The eight bytes of `n` in two's complement, most significant first.
pub open spec fn i64_be_bytes(n: i64) -> Seq<u8> {
    u64_be_bytes(i64_to_unsigned(n))
}

/// The signed integer whose two's complement big-endian bytes are the first
/// eight bytes of `b`.
pub open spec fn i64_from_be_bytes(b: Seq<u8>) -> i64
    recommends
        b.len() >= 8,
{
    i64_from_unsigned(u64_from_be_bytes(b))
}

/// An unsigned 64-bit integer is the sum of its bytes, each at its place.
proof fn lemma_u64_sum_of_bytes(n: u64)
    ensures
        ((n / 0x100_0000_0000_0000) % 0x100) * 0x100_0000_0000_0000 + ((n / 0x1_0000_0000_0000)
            % 0x100) * 0x1_0000_0000_0000 + ((n / 0x100_0000_0000) % 0x100) * 0x100_0000_0000 + ((n
            / 0x1_0000_0000) % 0x100) * 0x1_0000_0000 + ((n / 0x100_0000) % 0x100) * 0x100_0000 + ((n
            / 0x1_0000) % 0x100) * 0x1_0000 + ((n / 0x100) % 0x100) * 0x100 + (n % 0x100) == n,
{
    assert(((n / 0x100_0000_0000_0000) % 0x100) * 0x100_0000_0000_0000 + ((n / 0x1_0000_0000_0000)
        % 0x100) * 0x1_0000_0000_0000 + ((n / 0x100_0000_0000) % 0x100) * 0x100_0000_0000 + ((n
        / 0x1_0000_0000) % 0x100) * 0x1_0000_0000 + ((n / 0x100_0000) % 0x100) * 0x100_0000 + ((n
        / 0x1_0000) % 0x100) * 0x1_0000 + ((n / 0x100) % 0x100) * 0x100 + (n % 0x100) == n)
        by (bit_vector);
}

/// Reading back the bytes of an unsigned integer gives the integer, whatever
/// follows the eight bytes.
pub proof fn lemma_u64_be_round_trip(n: u64, rest: Seq<u8>)
    ensures
        u64_be_bytes(n).len() == 8,
        u64_from_be_bytes(u64_be_bytes(n) + rest) == n,
{
    lemma_u64_sum_of_bytes(n);
}

/// Reading back the bytes of a signed integer gives the integer, whatever
/// follows the eight bytes.
pub proof fn lemma_i64_be_round_trip(n: i64, rest: Seq<u8>)
    ensures
        i64_be_bytes(n).len() == 8,
        i64_from_be_bytes(i64_be_bytes(n) + rest) == n,
{
    lemma_u64_be_round_trip(i64_to_unsigned(n), rest);
}

/// The layout on chosen values: 0x0102030405060708 is written as the bytes
/// 01 to 08 and read back from them, and -2 is written as seven bytes FF
/// and one byte FE.
pub proof fn lemma_be_examples()
    ensures
        u64_be_bytes(0x0102_0304_0506_0708) == seq![1u8, 2u8, 3u8, 4u8, 5u8, 6u8, 7u8, 8u8],
        u64_from_be_bytes(seq![1u8, 2u8, 3u8, 4u8, 5u8, 6u8, 7u8, 8u8]) == 0x0102_0304_0506_0708,
        i64_be_bytes(-2i64) == seq![0xFFu8, 0xFFu8, 0xFFu8, 0xFFu8, 0xFFu8, 0xFFu8, 0xFFu8, 0xFEu8],
        i64_from_be_bytes(seq![0xFFu8, 0xFFu8, 0xFFu8, 0xFFu8, 0xFFu8, 0xFFu8, 0xFFu8, 0xFEu8])
            == -2i64,
{
    assert(u64_be_bytes(0x0102_0304_0506_0708) =~= seq![1u8, 2u8, 3u8, 4u8, 5u8, 6u8, 7u8, 8u8]);
    assert(i64_be_bytes(-2i64) =~= seq![
        0xFFu8,
        0xFFu8,
        0xFFu8,
        0xFFu8,
        0xFFu8,
        0xFFu8,
        0xFFu8,
        0xFEu8,
    ]);
}

} // verus!
