//! The memory protection unit setup: the four regions the kernel programs,
//! as the values written to the region number, base address and attribute
//! registers, and the control bits set afterwards.
use vstd::prelude::*;

verus! {

/// Access permission field: full access (also used, as written, for the
/// regions meant to be read-only).
pub const MPU_FULL_ACCESS: u32 = 0x0300_0000;
/// The cacheable bit.
pub const MPU_CACHEABLE: u32 = 0x0002_0000;
/// The write-back (bufferable) bit.
pub const MPU_WRITE_BACK: u32 = 0x0001_0000;
/// The region enable bit.
pub const MPU_REGION_ENABLE: u32 = 0x01;
/// Control: enable the MPU.
pub const MPU_ENABLE: u32 = 0x01;
/// Control: the default memory map for privileged code.
pub const MPU_DEFAULT_MMAP_FOR_PRIVILEGED: u32 = 0x04;
/// System handler control: enable the memory management fault.
pub const MEMFAULTENA: u32 = 0x0001_0000;

/// The values for one region: its number, base address, and attributes.
#[derive(Clone, Copy, PartialEq, Eq, Structural, Debug)]
pub struct MpuRegion {
    pub number: u32,
    pub base: u32,
    pub attributes: u32,
}

/// The size field of a region of `2^(k+1)` bytes is `k`.
pub fn log2minus1(sz: u32) -> (r: u32)
    requires
        exists|i: u32| 5 <= i <= 31 && sz == 1u32 << i,
    ensures
        5 <= r + 1 <= 31,
        sz == 1u32 << ((r + 1) as u32),
{
    let mut i: u32 = 5;
    while i <= 31
        invariant
            5 <= i <= 32,
            exists|k: u32| 5 <= k <= 31 && sz == 1u32 << k,
            forall|j: u32| 5 <= j < i ==> sz != 1u32 << j,
        decreases 32 - i,
    {
        if sz == 1u32 << i {
            return i - 1;
        }
        i = i + 1;
    }
    0
}

/// The attribute value of a region of `2^(k+1)` bytes: full access,
/// cacheable, write-back, size field `k`, enabled.
pub open spec fn region_attributes(k: u32) -> u32 {
    MPU_FULL_ACCESS | MPU_CACHEABLE | MPU_WRITE_BACK | (k << 1u32) | MPU_REGION_ENABLE
}

/// The regions in the order they are programmed: 128 KiB of RAM at
/// 0x2000_0000, 128 KiB of SRAM at 0x3000_0000, 128 KiB of flash at
/// 0x0800_0000 and 1 MiB of system space at 0xE000_0000.
pub fn mpu_regions() -> (r: Vec<MpuRegion>)
    ensures
        r@ == seq![
            MpuRegion { number: 0, base: 0x2000_0000, attributes: region_attributes(16) },
            MpuRegion { number: 1, base: 0x3000_0000, attributes: region_attributes(16) },
            MpuRegion { number: 2, base: 0x0800_0000, attributes: region_attributes(16) },
            MpuRegion { number: 3, base: 0xE000_0000, attributes: region_attributes(19) },
        ],
        r@[0].attributes == 0x0303_0021,
        r@[3].attributes == 0x0303_0027,
{
    let sizes: [u32; 4] = [128 * 1024, 128 * 1024, 128 * 1024, 1024 * 1024];
    let bases: [u32; 4] = [0x2000_0000, 0x3000_0000, 0x0800_0000, 0xE000_0000];
    proof {
        assert(1u32 << 17u32 == 128 * 1024) by (bit_vector);
        assert(1u32 << 20u32 == 1024 * 1024) by (bit_vector);
    }
    let mut regions: Vec<MpuRegion> = Vec::new();
    let mut n: usize = 0;
    while n < 4
        invariant
            n <= 4,
            regions@.len() == n,
            sizes@ == seq![131072u32, 131072u32, 131072u32, 1048576u32],
            bases@ == seq![0x2000_0000u32, 0x3000_0000u32, 0x0800_0000u32, 0xE000_0000u32],
            1u32 << 17u32 == 128 * 1024,
            1u32 << 20u32 == 1024 * 1024,
            forall|j: int| 0 <= j < n ==> #[trigger] regions@[j] == (MpuRegion {
                number: j as u32,
                base: bases@[j],
                attributes: region_attributes(if j == 3 { 19u32 } else { 16u32 }),
            }),
        decreases 4 - n,
    {
        let size = sizes[n];
        let k = log2minus1(size);
        proof {
            let kk = k;
            if n == 3 {
                assert((1u32 << ((kk + 1) as u32)) == (1u32 << 20u32) && 5 <= kk + 1 <= 31 ==> kk == 19) by (bit_vector);
            } else {
                assert((1u32 << ((kk + 1) as u32)) == (1u32 << 17u32) && 5 <= kk + 1 <= 31 ==> kk == 16) by (bit_vector);
            }
        }
        let attributes = MPU_FULL_ACCESS | MPU_CACHEABLE | MPU_WRITE_BACK | (k << 1u32) | MPU_REGION_ENABLE;
        regions.push(MpuRegion { number: n as u32, base: bases[n], attributes });
        n = n + 1;
    }
    proof {
        assert(region_attributes(16) == 0x0303_0021) by (bit_vector);
        assert(region_attributes(19) == 0x0303_0027) by (bit_vector);
        assert(regions@ =~= seq![
            MpuRegion { number: 0, base: 0x2000_0000, attributes: region_attributes(16) },
            MpuRegion { number: 1, base: 0x3000_0000, attributes: region_attributes(16) },
            MpuRegion { number: 2, base: 0x0800_0000, attributes: region_attributes(16) },
            MpuRegion { number: 3, base: 0xE000_0000, attributes: region_attributes(19) },
        ]);
    }
    regions
}

/// The control register after the regions: the old value with the default
/// map for privileged code and the enable bit set.
pub fn mpu_control(old_ctrl: u32) -> (r: u32)
    ensures
        r == old_ctrl | MPU_DEFAULT_MMAP_FOR_PRIVILEGED | MPU_ENABLE,
{
    old_ctrl | MPU_DEFAULT_MMAP_FOR_PRIVILEGED | MPU_ENABLE
}

/// The system handler control register with the memory management fault
/// enabled.
pub fn shcsr_with_memfault(old_shcsr: u32) -> (r: u32)
    ensures
        r == old_shcsr | MEMFAULTENA,
{
    old_shcsr | MEMFAULTENA
}

} // verus!
