//! QUIC variable-length integers and the big-endian fields around them.
//!
//! A value below 2^62 is written in 1, 2, 4 or 8 bytes.  The two top bits of
//! the first byte carry the length tag (0, 1, 2, 3); the remaining bits carry
//! the value in network byte order.  Everything here is stated over `Seq<u8>`
//! with plain arithmetic, so that the laws can be proved without bit tricks.

use vstd::prelude::*;

verus! {

/// One more than the largest value a variable-length integer can carry: 2^62.
pub const VARINT_LIMIT: u64 = 0x4000_0000_0000_0000;

/// Why a variable-length integer could not be written or read.
#[derive(Debug, Clone, Copy, PartialEq, Eq)]
pub enum VarIntError {
    /// The value to write is 2^62 or more.
    ValueTooLarge,
    /// The input ends before the integer does.
    UnexpectedEnd,
}

/// The two bytes of `x` in network byte order.
#[verifier::opaque]
pub open spec fn be_bytes_2(x: nat) -> Seq<u8> {
    seq![(x / 0x100 % 0x100) as u8, (x % 0x100) as u8]
}

/// The four bytes of `x` in network byte order.
#[verifier::opaque]
pub open spec fn be_bytes_4(x: nat) -> Seq<u8> {
    seq![
        (x / 0x100_0000 % 0x100) as u8,
        (x / 0x1_0000 % 0x100) as u8,
        (x / 0x100 % 0x100) as u8,
        (x % 0x100) as u8,
    ]
}

/// The eight bytes of `x` in network byte order: its upper half, then its
/// lower half.
pub open spec fn be_bytes_8(x: nat) -> Seq<u8> {
    be_bytes_4(x / 0x1_0000_0000) + be_bytes_4(x % 0x1_0000_0000)
}

/// The number that the first two bytes of `s` spell in network byte order.
#[verifier::opaque]
pub open spec fn be_value_2(s: Seq<u8>) -> nat {
    (s[0] as nat) * 0x100 + (s[1] as nat)
}

/// The number that the first four bytes of `s` spell in network byte order.
#[verifier::opaque]
pub open spec fn be_value_4(s: Seq<u8>) -> nat {
    (s[0] as nat) * 0x100_0000 + (s[1] as nat) * 0x1_0000 + (s[2] as nat) * 0x100 + (s[3] as nat)
}

/// The number that the first eight bytes of `s` spell in network byte order.
pub open spec fn be_value_8(s: Seq<u8>) -> nat {
    be_value_4(s) * 0x1_0000_0000 + be_value_4(s.skip(4))
}

/// Number of bytes in the encoding of `value`: the least of 1, 2, 4, 8 whose
/// payload bits hold it.
pub open spec fn varint_len(value: u64) -> nat {
    if value < 0x40 {
        1
    } else if value < 0x4000 {
        2
    } else if value < 0x4000_0000 {
        4
    } else {
        8
    }
}

/// How many values an encoding of `n` bytes can tell apart: 2^(8n-2).
pub open spec fn varint_capacity(n: nat) -> nat {
    if n == 1 {
        0x40
    } else if n == 2 {
        0x4000
    } else if n == 4 {
        0x4000_0000
    } else if n == 8 {
        0x4000_0000_0000_0000
    } else {
        0
    }
}

/// The encoding of `value`, for `value < 2^62`: the value plus its length tag
/// in the two top bits, in network byte order.
#[verifier::opaque]
pub open spec fn varint_encode(value: u64) -> Seq<u8> {
    if value < 0x40 {
        seq![value as u8]
    } else if value < 0x4000 {
        be_bytes_2((value + 0x4000) as nat)
    } else if value < 0x4000_0000 {
        be_bytes_4((value + 0x8000_0000) as nat)
    } else {
        be_bytes_8((value + 0xC000_0000_0000_0000) as nat)
    }
}

/// Length that the first byte of an encoding announces.
pub open spec fn varint_len_of_first(first: u8) -> nat {
    if first < 0x40 {
        1
    } else if first < 0x80 {
        2
    } else if first < 0xC0 {
        4
    } else {
        8
    }
}

/// Reads one integer from the front of `bytes`: the value and the number of
/// bytes it took, or `None` where `bytes` ends too early.
#[verifier::opaque]
pub open spec fn varint_decode(bytes: Seq<u8>) -> Option<(u64, nat)> {
    if bytes.len() == 0 {
        None
    } else {
        let n = varint_len_of_first(bytes[0]);
        if bytes.len() < n {
            None
        } else if n == 1 {
            Some(((bytes[0] % 0x40) as u64, n))
        } else if n == 2 {
            Some(((be_value_2(bytes) % 0x4000) as u64, n))
        } else if n == 4 {
            Some(((be_value_4(bytes) % 0x4000_0000) as u64, n))
        } else {
            Some(((be_value_8(bytes) % 0x4000_0000_0000_0000) as u64, n))
        }
    }
}

/// Two bytes in network byte order spell the number they were made from.
pub proof fn lemma_be_2_round_trip(x: nat, rest: Seq<u8>)
    requires
        x < 0x1_0000,
    ensures
        be_value_2(be_bytes_2(x) + rest) == x,
        be_bytes_2(x).len() == 2,
        be_bytes_2(x)[0] == x / 0x100,
{
    reveal(be_bytes_2);
    reveal(be_value_2);
}

/// Four bytes in network byte order spell the number they were made from.
pub proof fn lemma_be_4_round_trip(x: nat, rest: Seq<u8>)
    requires
        x < 0x1_0000_0000,
    ensures
        be_value_4(be_bytes_4(x) + rest) == x,
        be_bytes_4(x).len() == 4,
        be_bytes_4(x)[0] == x / 0x100_0000,
{
    reveal(be_bytes_4);
    reveal(be_value_4);
}

/// Eight bytes in network byte order spell the number they were made from.
pub proof fn lemma_be_8_round_trip(x: nat, rest: Seq<u8>)
    requires
        x < 0x1_0000_0000_0000_0000,
    ensures
        be_value_8(be_bytes_8(x) + rest) == x,
        be_bytes_8(x).len() == 8,
        be_bytes_8(x)[0] == x / 0x100_0000_0000_0000,
{
    let hi = x / 0x1_0000_0000;
    let lo = x % 0x1_0000_0000;
    let all = be_bytes_8(x) + rest;
    lemma_be_4_round_trip(hi, be_bytes_4(lo) + rest);
    lemma_be_4_round_trip(lo, rest);
    assert(all =~= be_bytes_4(hi) + (be_bytes_4(lo) + rest));
    assert(all.skip(4) =~= be_bytes_4(lo) + rest);
}

/// Decoding what was encoded gives the value back, whatever follows it, and
/// takes exactly the bytes that were written.  The encoding has the least
/// length of 1, 2, 4, 8 that can hold the value.
pub proof fn lemma_varint_round_trip(value: u64, rest: Seq<u8>)
    requires
        value < VARINT_LIMIT,
    ensures
        varint_encode(value).len() == varint_len(value),
        varint_decode(varint_encode(value) + rest) == Some((value, varint_len(value))),
        value < varint_capacity(varint_len(value)),
        forall|n: nat| value < #[trigger] varint_capacity(n) ==> varint_len(value) <= n,
{
    reveal(varint_encode);
    reveal(varint_decode);
    if value < 0x40 {
        // One byte: the value itself.
    } else if value < 0x4000 {
        let x = (value + 0x4000) as nat;
        lemma_be_2_round_trip(x, rest);
    } else if value < 0x4000_0000 {
        let x = (value + 0x8000_0000) as nat;
        lemma_be_4_round_trip(x, rest);
    } else {
        let x = (value + 0xC000_0000_0000_0000) as nat;
        lemma_be_8_round_trip(x, rest);
    }
}

/// Appends the two bytes of `x` in network byte order.
pub fn push_be_u16(out: &mut Vec<u8>, x: u16)
    ensures
        final(out)@ == old(out)@ + be_bytes_2(x as nat),
{
    reveal(be_bytes_2);
    out.push((x / 0x100) as u8);
    out.push((x % 0x100) as u8);
}

/// Appends the four bytes of `x` in network byte order.
pub fn push_be_u32(out: &mut Vec<u8>, x: u32)
    ensures
        final(out)@ == old(out)@ + be_bytes_4(x as nat),
{
    reveal(be_bytes_4);
    out.push((x / 0x100_0000) as u8);
    out.push((x / 0x1_0000 % 0x100) as u8);
    out.push((x / 0x100 % 0x100) as u8);
    out.push((x % 0x100) as u8);
}

/// Appends the eight bytes of `x` in network byte order.
pub fn push_be_u64(out: &mut Vec<u8>, x: u64)
    ensures
        final(out)@ == old(out)@ + be_bytes_8(x as nat),
{
    push_be_u32(out, (x / 0x1_0000_0000) as u32);
    push_be_u32(out, (x % 0x1_0000_0000) as u32);
}

/// Reads the four bytes at `pos` as a number in network byte order.
pub fn read_be_u32(data: &[u8], pos: usize) -> (x: u32)
    requires
        pos + 4 <= data.len(),
    ensures
        x == be_value_4(data@.skip(pos as int)),
{
    reveal(be_value_4);
    let b0 = data[pos] as u32;
    let b1 = data[pos + 1] as u32;
    let b2 = data[pos + 2] as u32;
    let b3 = data[pos + 3] as u32;
    b0 * 0x100_0000 + b1 * 0x1_0000 + b2 * 0x100 + b3
}

/// Reads the eight bytes at `pos` as a number in network byte order.
pub fn read_be_u64(data: &[u8], pos: usize) -> (x: u64)
    requires
        pos + 8 <= data.len(),
    ensures
        x == be_value_8(data@.skip(pos as int)),
{
    let hi = read_be_u32(data, pos);
    let lo = read_be_u32(data, pos + 4);
    assert(data@.skip(pos + 4) =~= data@.skip(pos as int).skip(4));
    (hi as u64) * 0x1_0000_0000 + (lo as u64)
}

/// Appends the encoding of `value` to `out`, or refuses a value of 2^62 or
/// more and leaves `out` as it was.
pub fn write_varint(out: &mut Vec<u8>, value: u64) -> (res: Result<(), VarIntError>)
    ensures
        res is Ok <==> value < VARINT_LIMIT,
        res is Ok ==> final(out)@ == old(out)@ + varint_encode(value),
        res is Err ==> res == Err::<(), VarIntError>(VarIntError::ValueTooLarge) && final(out)@
            == old(out)@,
{
    reveal(varint_encode);
    if value < 0x40 {
        out.push(value as u8);
        Ok(())
    } else if value < 0x4000 {
        push_be_u16(out, (value + 0x4000) as u16);
        Ok(())
    } else if value < 0x4000_0000 {
        push_be_u32(out, (value + 0x8000_0000) as u32);
        Ok(())
    } else if value < VARINT_LIMIT {
        push_be_u64(out, value + 0xC000_0000_0000_0000);
        Ok(())
    } else {
        Err(VarIntError::ValueTooLarge)
    }
}

/// Reads one integer that starts at `pos` in `data`: the value and the
/// position after it.  Fails where fewer bytes are left than the first byte
/// announces.
pub fn read_varint(data: &[u8], pos: usize) -> (res: Result<(u64, usize), VarIntError>)
    requires
        pos <= data@.len(),
    ensures
        match res {
            Ok((value, next)) => varint_decode(data@.skip(pos as int)) == Some(
                (value, (next - pos) as nat),
            ) && pos < next <= data@.len() && value < VARINT_LIMIT,
            Err(e) => varint_decode(data@.skip(pos as int)) is None && e
                == VarIntError::UnexpectedEnd,
        },
{
    reveal(be_value_2);
    reveal(varint_decode);
    if pos >= data.len() {
        return Err(VarIntError::UnexpectedEnd);
    }
    let left = data.len() - pos;
    let first = data[pos];
    if first < 0x40 {
        Ok(((first % 0x40) as u64, pos + 1))
    } else if first < 0x80 {
        if left < 2 {
            return Err(VarIntError::UnexpectedEnd);
        }
        let b1 = data[pos + 1];
        let raw: u64 = (first as u64) * 0x100 + (b1 as u64);
        Ok((raw % 0x4000, pos + 2))
    } else if first < 0xC0 {
        if left < 4 {
            return Err(VarIntError::UnexpectedEnd);
        }
        let raw = read_be_u32(data, pos);
        Ok(((raw as u64) % 0x4000_0000, pos + 4))
    } else {
        if left < 8 {
            return Err(VarIntError::UnexpectedEnd);
        }
        let raw = read_be_u64(data, pos);
        Ok((raw % 0x4000_0000_0000_0000, pos + 8))
    }
}

} // verus!
