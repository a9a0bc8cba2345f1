//! Little-endian integers read from byte slices.
use vstd::prelude::*;

verus! {

/// The little-endian 32-bit integer at `o` in `b`.
pub open spec fn le32(b: Seq<u8>, o: int) -> int {
    b[o] + b[o + 1] * 0x100 + b[o + 2] * 0x1_0000 + b[o + 3] * 0x100_0000
}

/// The little-endian 64-bit integer at `o` in `b`.
pub open spec fn le64(b: Seq<u8>, o: int) -> int {
    le32(b, o) + le32(b, o + 4) * 0x1_0000_0000
}

/// `256^k`.
pub open spec fn pow256(k: nat) -> nat
    decreases k,
{
    if k == 0 {
        1
    } else {
        256 * pow256((k - 1) as nat)
    }
}

/// The `n` low bytes of `v`, least significant first.
pub open spec fn le_bytes(v: nat, n: nat) -> Seq<u8> {
    Seq::new(n, |i: int| ((v / pow256(i as nat)) % 256) as u8)
}

/// The four bytes of a value below 2^32, least significant first, read back
/// as a little-endian integer, give the value.
pub proof fn lemma_le32_of_bytes(b: Seq<u8>, o: int, v: nat)
    requires
        0 <= o,
        o + 4 <= b.len(),
        v < 0x1_0000_0000,
        b.subrange(o, o + 4) == le_bytes(v, 4),
    ensures
        le32(b, o) == v,
{
    reveal_with_fuel(pow256, 4);
    let w = v as u32;
    assert(b[o] == b.subrange(o, o + 4)[0]);
    assert(b[o + 1] == b.subrange(o, o + 4)[1]);
    assert(b[o + 2] == b.subrange(o, o + 4)[2]);
    assert(b[o + 3] == b.subrange(o, o + 4)[3]);
    assert(w == w % 256 + (w / 256) % 256 * 256 + (w / 0x1_0000) % 256 * 0x1_0000 + (w
        / 0x100_0000) % 256 * 0x100_0000) by (bit_vector);
}

/// The eight bytes of a value below 2^64, least significant first, read back
/// as a little-endian integer, give the value.
pub proof fn lemma_le64_of_bytes(b: Seq<u8>, o: int, v: nat)
    requires
        0 <= o,
        o + 8 <= b.len(),
        v < 0x1_0000_0000_0000_0000,
        b.subrange(o, o + 8) == le_bytes(v, 8),
    ensures
        le64(b, o) == v,
{
    reveal_with_fuel(pow256, 8);
    let w = v as u64;
    let s = b.subrange(o, o + 8);
    assert(b[o] == s[0]);
    assert(b[o + 1] == s[1]);
    assert(b[o + 2] == s[2]);
    assert(b[o + 3] == s[3]);
    assert(b[o + 4] == s[4]);
    assert(b[o + 5] == s[5]);
    assert(b[o + 6] == s[6]);
    assert(b[o + 7] == s[7]);
    assert(w == w % 256 + (w / 256) % 256 * 256 + (w / 0x1_0000) % 256 * 0x1_0000 + (w
        / 0x100_0000) % 256 * 0x100_0000 + (w / 0x1_0000_0000) % 256 * 0x1_0000_0000 + (w
        / 0x100_0000_0000) % 256 * 0x100_0000_0000 + (w / 0x1_0000_0000_0000) % 256
        * 0x1_0000_0000_0000 + (w / 0x100_0000_0000_0000) % 256 * 0x100_0000_0000_0000)
        by (bit_vector);
}

/// Reads the little-endian 32-bit integer at `o`.
pub fn read_u32(b: &[u8], o: usize) -> (r: u32)
    requires
        o + 4 <= b@.len(),
    ensures
        r == le32(b@, o as int),
{
    let b0 = b[o] as u32;
    let b1 = b[o + 1] as u32;
    let b2 = b[o + 2] as u32;
    let b3 = b[o + 3] as u32;
    b0 + b1 * 0x100 + b2 * 0x1_0000 + b3 * 0x100_0000
}

/// Reads the little-endian 64-bit integer at `o`.
pub fn read_u64(b: &[u8], o: usize) -> (r: u64)
    requires
        o + 8 <= b@.len(),
    ensures
        r == le64(b@, o as int),
{
    let n = b.len();
    assert(o + 4 <= n);
    let lo = read_u32(b, o) as u64;
    let hi = read_u32(b, o + 4) as u64;
    lo + hi * 0x1_0000_0000
}

} // verus!
