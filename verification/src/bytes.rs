//! Little-endian integers and comparisons on byte slices.

use vstd::prelude::*;

verus! {

/// The little-endian 32-bit integer at `at`.
pub open spec fn le_u32(bytes: Seq<u8>, at: int) -> u32 {
    (bytes[at] + 0x100 * bytes[at + 1] + 0x1_0000 * bytes[at + 2] + 0x100_0000 * bytes[at
        + 3]) as u32
}

/// The two bytes of `value`, low byte first.
pub open spec fn le_bytes_u16(value: u16) -> Seq<u8> {
    seq![(value % 0x100) as u8, (value / 0x100) as u8]
}

/// The 16-bit integer whose bytes are `low` and `high`.
pub open spec fn le_u16(low: u8, high: u8) -> u16 {
    (low + 0x100 * high) as u16
}

/// Whether every byte is zero.
pub open spec fn zeros(bytes: Seq<u8>) -> bool {
    forall|i: int| 0 <= i < bytes.len() ==> bytes[i] == 0
}

/// Read the little-endian 32-bit integer at `offset`.
pub fn read_u32(bytes: &[u8], offset: usize) -> (value: u32)
    requires
        offset + 4 <= bytes@.len(),
    ensures
        value == le_u32(bytes@, offset as int),
{
    bytes[offset] as u32 + 0x100 * (bytes[offset + 1] as u32) + 0x1_0000 * (bytes[offset
        + 2] as u32) + 0x100_0000 * (bytes[offset + 3] as u32)
}

/// Whether every byte is zero.
pub fn all_zero(bytes: &[u8]) -> (result: bool)
    ensures
        result == zeros(bytes@),
{
    for i in 0..bytes.len()
        invariant
            forall|j: int| 0 <= j < i ==> bytes@[j] == 0,
    {
        if bytes[i] != 0 {
            return false;
        }
    }
    true
}

/// The `N` bytes from `offset` on.
pub fn read_array<const N: usize>(bytes: &[u8], offset: usize) -> (array: [u8; N])
    requires
        offset + N <= bytes@.len(),
    ensures
        array@ == bytes@.subrange(offset as int, offset + N),
{
    let mut array: [u8; N] = [0u8; N];
    for i in 0..N
        invariant
            offset + N <= bytes.len(),
            forall|j: int| 0 <= j < i ==> array@[j] == bytes@[offset + j],
    {
        array[i] = bytes[offset + i];
    }
    assert(array@ =~= bytes@.subrange(offset as int, offset + N));
    array
}

/// Whether two slices hold the same bytes.
pub fn same_bytes(left: &[u8], right: &[u8]) -> (result: bool)
    ensures
        result == (left@ == right@),
{
    if left.len() != right.len() {
        return false;
    }
    for i in 0..left.len()
        invariant
            left@.len() == right@.len(),
            forall|j: int| 0 <= j < i ==> left@[j] == right@[j],
    {
        if left[i] != right[i] {
            return false;
        }
    }
    assert(left@ =~= right@);
    true
}

/// Splitting an integer into bytes and joining them again changes nothing.
pub proof fn lemma_le_u16(value: u16)
    ensures
        le_u16(le_bytes_u16(value)[0], le_bytes_u16(value)[1]) == value,
{
}

/// The bytes of an integer stand in the order of their weight, the lightest
/// first.
pub proof fn integers_are_little_endian(bytes: Seq<u8>, at: int)
    requires
        0 <= at,
        at + 4 <= bytes.len(),
    ensures
        le_u32(bytes, at) % 0x100 == bytes[at],
        le_u32(bytes, at) / 0x100 % 0x100 == bytes[at + 1],
        le_u32(bytes, at) / 0x1_0000 % 0x100 == bytes[at + 2],
        le_u32(bytes, at) / 0x100_0000 == bytes[at + 3],
        le_u16(bytes[at], bytes[at + 1]) % 0x100 == bytes[at],
        le_u16(bytes[at], bytes[at + 1]) / 0x100 == bytes[at + 1],
        le_bytes_u16(le_u16(bytes[at], bytes[at + 1])) == seq![bytes[at], bytes[at + 1]],
{
    assert(le_bytes_u16(le_u16(bytes[at], bytes[at + 1])) =~= seq![bytes[at], bytes[at + 1]]);
}

/// Bytes count as zeros if and only if none of them is anything else.
pub proof fn zeros_are_nothing_else(bytes: Seq<u8>)
    ensures
        zeros(bytes) <==> !exists|i: int| 0 <= i < bytes.len() && #[trigger] bytes[i] != 0,
{
}

} // verus!
