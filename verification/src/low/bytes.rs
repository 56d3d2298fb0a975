//! Little-endian numbers.
use vstd::prelude::*;

verus! {

/// The number that `bytes` write down, lowest byte first.
pub open spec fn le_value(bytes: Seq<u8>) -> nat
    decreases bytes.len(),
{
    if bytes.len() == 0 {
        0
    } else {
        bytes[0] as nat + 256 * le_value(bytes.drop_first())
    }
}

/// The signed integer that the residue `raw` stands for in two's complement,
/// where `modulus` residues are in use.
pub open spec fn signed_value(raw: nat, modulus: nat) -> int {
    if 2 * raw < modulus {
        raw as int
    } else {
        raw - modulus
    }
}

/// `N` bytes write down a number below `256^N`.
pub proof fn lemma_le_value_bound(bytes: Seq<u8>)
    ensures
        bytes.len() == 1 ==> le_value(bytes) == bytes[0],
        bytes.len() == 2 ==> le_value(bytes) <= u16::MAX,
        bytes.len() == 4 ==> le_value(bytes) <= u32::MAX,
        bytes.len() == 8 ==> le_value(bytes) <= u64::MAX,
{
    reveal_with_fuel(le_value, 9);
}

/// A number is zero exactly where all its bytes are.
pub proof fn lemma_le_value_zero(bytes: Seq<u8>)
    ensures
        le_value(bytes) == 0 <==> (forall|i: int| 0 <= i < bytes.len() ==> bytes[i] == 0),
    decreases bytes.len(),
{
    if bytes.len() > 0 {
        let tail = bytes.drop_first();
        lemma_le_value_zero(tail);
        if le_value(bytes) == 0 {
            assert forall|i: int| 0 <= i < bytes.len() implies bytes[i] == 0 by {
                if i > 0 {
                    assert(tail[i - 1] == bytes[i]);
                }
            }
        }
    }
}

/// Reads the 16-bit number at index `at`.
pub fn le_u16(bytes: &Vec<u8>, at: usize) -> (value: u16)
    requires
        at + 2 <= bytes.len(),
    ensures
        value as nat == le_value(bytes@.subrange(at as int, at + 2)),
{
    proof {
        reveal_with_fuel(le_value, 3);
    }
    bytes[at] as u16 + 0x100 * bytes[at + 1] as u16
}

/// Reads the 32-bit number at index `at`.
pub fn le_u32(bytes: &Vec<u8>, at: usize) -> (value: u32)
    requires
        at + 4 <= bytes.len(),
    ensures
        value as nat == le_value(bytes@.subrange(at as int, at + 4)),
{
    let low: u16 = le_u16(bytes, at);
    let high: u16 = le_u16(bytes, at + 2);
    proof {
        reveal_with_fuel(le_value, 5);
    }
    low as u32 + 0x1_0000 * high as u32
}

/// Reads the 64-bit number at index `at`.
pub fn le_u64(bytes: &Vec<u8>, at: usize) -> (value: u64)
    requires
        at + 8 <= bytes.len(),
    ensures
        value as nat == le_value(bytes@.subrange(at as int, at + 8)),
{
    let low: u32 = le_u32(bytes, at);
    let high: u32 = le_u32(bytes, at + 4);
    proof {
        reveal_with_fuel(le_value, 9);
    }
    low as u64 + 0x1_0000_0000 * high as u64
}

/// Reads a 16-bit two's complement.
pub fn signed_i16(raw: u16) -> (value: i16)
    ensures
        value == signed_value(raw as nat, 0x1_0000),
{
    if raw < 0x8000 {
        raw as i16
    } else {
        (raw as i32 - 0x1_0000) as i16
    }
}

/// Reads a 32-bit two's complement.
pub fn signed_i32(raw: u32) -> (value: i32)
    ensures
        value == signed_value(raw as nat, 0x1_0000_0000),
{
    if raw < 0x8000_0000 {
        raw as i32
    } else {
        (raw as i64 - 0x1_0000_0000) as i32
    }
}

/// Reads a 64-bit two's complement.
pub fn signed_i64(raw: u64) -> (value: i64)
    ensures
        value == signed_value(raw as nat, 0x1_0000_0000_0000_0000),
{
    if raw < 0x8000_0000_0000_0000 {
        raw as i64
    } else {
        (raw as i128 - 0x1_0000_0000_0000_0000) as i64
    }
}

} // verus!
