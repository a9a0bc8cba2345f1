//! The x86_64 task state segment.
use vstd::prelude::*;
use crate::memory::VAddr;
use crate::bytes::{le_bytes, pow256};

verus! {

/// A task state segment: the stack pointers for privilege rings 0 to 2, the
/// interrupt stack table, and the base offset of the I/O permission map.
#[derive(Clone, Copy, Debug)]
pub struct StateSegment {
    /// Stack pointers (`rsp`) for privilege rings 0 to 2.
    pub rsp: [VAddr; 3],
    /// The interrupt stack table.
    pub ist: [VAddr; 7],
    /// The base offset of the I/O permission map.
    pub iomap_base_offset: u16,
}

/// `n` zero bytes.
pub open spec fn zero_bytes(n: nat) -> Seq<u8> {
    Seq::new(n, |i: int| 0u8)
}

/// The 104 bytes of a task state segment as the processor reads them: four
/// reserved bytes, the three stack pointers from offset 4, eight reserved
/// bytes, the seven interrupt stack table entries from offset 0x24, ten
/// reserved bytes, and the I/O map base offset at offset 102.
pub open spec fn tss_image(s: StateSegment) -> Seq<u8> {
    zero_bytes(4) + le_bytes(s.rsp@[0]@ as nat, 8) + le_bytes(s.rsp@[1]@ as nat, 8) + le_bytes(
        s.rsp@[2]@ as nat,
        8,
    ) + zero_bytes(8) + le_bytes(s.ist@[0]@ as nat, 8) + le_bytes(s.ist@[1]@ as nat, 8) + le_bytes(
        s.ist@[2]@ as nat,
        8,
    ) + le_bytes(s.ist@[3]@ as nat, 8) + le_bytes(s.ist@[4]@ as nat, 8) + le_bytes(
        s.ist@[5]@ as nat,
        8,
    ) + le_bytes(s.ist@[6]@ as nat, 8) + zero_bytes(10) + le_bytes(s.iomap_base_offset as nat, 2)
}

/// Appends the `n` low bytes of `v`, least significant first.
fn push_le(out: &mut Vec<u8>, v: u64, n: usize)
    requires
        n <= 8,
    ensures
        final(out)@ == old(out)@ + le_bytes(v as nat, n as nat),
{
    let ghost base = out@;
    let mut x = v;
    let mut k: usize = 0;
    assert(pow256(0) == 1);
    assert(out@ =~= base + le_bytes(v as nat, 0));
    while k < n
        invariant
            k <= n,
            x as nat == v as nat / pow256(k as nat),
            pow256(k as nat) > 0,
            out@ == base + le_bytes(v as nat, k as nat),
        decreases n - k,
    {
        out.push((x % 256) as u8);
        proof {
            vstd::arithmetic::div_mod::lemma_div_denominator(v as int, pow256(k as nat) as int, 256);
            assert(pow256((k + 1) as nat) == 256 * pow256(k as nat));
            assert(pow256(k as nat) * 256 == 256 * pow256(k as nat)) by (nonlinear_arith);
            assert(out@ =~= base + le_bytes(v as nat, (k + 1) as nat));
        }
        x = x / 256;
        k = k + 1;
    }
}

/// Appends `n` zero bytes.
fn push_zeros(out: &mut Vec<u8>, n: usize)
    ensures
        final(out)@ == old(out)@ + zero_bytes(n as nat),
{
    let ghost base = out@;
    let mut k: usize = 0;
    while k < n
        invariant
            k <= n,
            out@ == base + zero_bytes(k as nat),
        decreases n - k,
    {
        out.push(0);
        k = k + 1;
        assert(out@ =~= base + zero_bytes(k as nat));
    }
}

impl StateSegment {
    /// A task state segment whose pointers and offset are all zero.
    pub fn new() -> (r: Self)
        ensures
            r.rsp@.len() == 3,
            forall|i: int| 0 <= i < 3 ==> (#[trigger] r.rsp@[i])@ == 0,
            r.ist@.len() == 7,
            forall|i: int| 0 <= i < 7 ==> (#[trigger] r.ist@[i])@ == 0,
            r.iomap_base_offset == 0,
    {
        let z = VAddr::new(0);
        StateSegment { rsp: [z, z, z], ist: [z, z, z, z, z, z, z], iomap_base_offset: 0 }
    }

    /// The segment's 104-byte image in memory, as `tss_image` lays it out.
    pub fn to_bytes(&self) -> (r: Vec<u8>)
        ensures
            r@ == tss_image(*self),
            r@.len() == 104,
    {
        let mut out: Vec<u8> = Vec::new();
        push_zeros(&mut out, 4);
        push_le(&mut out, self.rsp[0].as_usize() as u64, 8);
        push_le(&mut out, self.rsp[1].as_usize() as u64, 8);
        push_le(&mut out, self.rsp[2].as_usize() as u64, 8);
        push_zeros(&mut out, 8);
        push_le(&mut out, self.ist[0].as_usize() as u64, 8);
        push_le(&mut out, self.ist[1].as_usize() as u64, 8);
        push_le(&mut out, self.ist[2].as_usize() as u64, 8);
        push_le(&mut out, self.ist[3].as_usize() as u64, 8);
        push_le(&mut out, self.ist[4].as_usize() as u64, 8);
        push_le(&mut out, self.ist[5].as_usize() as u64, 8);
        push_le(&mut out, self.ist[6].as_usize() as u64, 8);
        push_zeros(&mut out, 10);
        push_le(&mut out, self.iomap_base_offset as u64, 2);
        assert(out@ =~= tss_image(*self));
        out
    }
}

} // verus!
