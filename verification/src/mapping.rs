use vstd::prelude::*;

verus! {

/// A backend for mapping physical memory.
#[derive(Debug, PartialEq, Eq)]
pub enum MapperType {
    /// `/dev/mem`: direct physical memory access.
    DevMem,
    /// A UIO device and the index of its memory region.
    Uio { device_path: String, region_index: usize },
}

/// The state of a mapping backend: whether its region is mapped and its size.
/// The mapped pointer and the open device file are held by the caller.
pub struct Mapper {
    pub mapper_type: MapperType,
    pub mapped: bool,
    pub map_size: usize,
}

/// The error for unmapping a backend that holds no mapping.
pub open spec fn not_mapped_message() -> Seq<char> {
    "Memory not mapped"@
}

/// A new, unmapped backend of the given type.
pub fn create_mapper(mapper_type: MapperType) -> (m: Mapper)
    ensures
        m.mapper_type == mapper_type,
        !m.mapped,
        m.map_size == 0,
{
    Mapper { mapper_type, mapped: false, map_size: 0 }
}

impl Mapper {
    /// Records the result of mapping `size` bytes, and returns the offset of the
    /// requested address within the mapped region: the one the mapping reports
    /// for `/dev/mem`, 0 for a UIO device (mapped from its region's start).
    pub fn record_map(&mut self, size: usize, mapping: Result<isize, String>) -> (r: Result<isize, String>)
        ensures
            final(self).mapper_type == old(self).mapper_type,
            match mapping {
                Ok(offset) => {
                    &&& final(self).mapped
                    &&& final(self).map_size == size
                    &&& r == Ok::<isize, String>(if old(self).mapper_type is DevMem { offset } else { 0 })
                },
                Err(e) => {
                    &&& final(self).mapped == old(self).mapped
                    &&& final(self).map_size == old(self).map_size
                    &&& r matches Err(f) && f@ == e@
                },
            },
    {
        match mapping {
            Ok(offset) => {
                self.mapped = true;
                self.map_size = size;
                match self.mapper_type {
                    MapperType::DevMem => Ok(offset),
                    _ => Ok(0),
                }
            },
            Err(e) => Err(e),
        }
    }

    /// Releases the mapping: the size of the region to unmap, or an error when
    /// nothing is mapped.
    pub fn release(&mut self) -> (r: Result<usize, String>)
        ensures
            final(self).mapper_type == old(self).mapper_type,
            !final(self).mapped,
            final(self).map_size == old(self).map_size,
            old(self).mapped ==> r == Ok::<usize, String>(old(self).map_size),
            !old(self).mapped ==> (r matches Err(e) && e@ == not_mapped_message()),
    {
        if self.mapped {
            self.mapped = false;
            Ok(self.map_size)
        } else {
            Err("Memory not mapped".to_string())
        }
    }
}

/// What probing a register word from a child process showed.
#[derive(Debug, PartialEq, Eq)]
pub enum ProbeVerdict {
    /// The child read the word and exited normally.
    Accessible,
    /// The child exited with a failure status.
    NotAccessible,
    /// The child was killed by this signal (a bus error).
    KilledBySignal(i32),
    /// The child neither exited nor was killed.
    Unexpected,
}

/// The verdict on a probe from how the child ended: its exit code if it exited,
/// else the signal that killed it, if any.
pub fn probe_verdict(exit_code: Option<i32>, signal: Option<i32>) -> (v: ProbeVerdict)
    ensures
        v == (match exit_code {
            Some(0) => ProbeVerdict::Accessible,
            Some(_) => ProbeVerdict::NotAccessible,
            None => match signal {
                Some(s) => ProbeVerdict::KilledBySignal(s),
                None => ProbeVerdict::Unexpected,
            },
        }),
{
    match exit_code {
        Some(code) => if code == 0 {
            ProbeVerdict::Accessible
        } else {
            ProbeVerdict::NotAccessible
        },
        None => match signal {
            Some(s) => ProbeVerdict::KilledBySignal(s),
            None => ProbeVerdict::Unexpected,
        },
    }
}

/// The file offset that selects memory region `region_index` of a UIO device.
pub fn uio_region_offset(region_index: usize, page_size: usize) -> (r: usize)
    requires
        region_index * page_size <= usize::MAX,
    ensures
        r == region_index * page_size,
{
    region_index * page_size
}

/// The page-aligned base of the window that holds `address`, for pages of
/// `page_size` bytes, and the offset of `address` within it.
pub fn page_window(address: u64, page_size: u64) -> (r: (u64, u64))
    requires
        page_size > 0,
    ensures
        r.0 == address & !((page_size - 1) as u64),
        r.0 + r.1 == address,
{
    let page_mask = !(page_size - 1);
    let map_base = address & page_mask;
    assert(address & page_mask <= address) by (bit_vector);
    (map_base, address - map_base)
}

/// For a power-of-two page size, the window's base is a multiple of the page
/// size and the address lies within the first page of the window.
pub proof fn law_page_window_aligned(address: u64, shift: u64)
    requires
        shift < 64,
    ensures
        ({
            let page_size = 1u64 << shift;
            let base = address & !((page_size - 1) as u64);
            &&& base % page_size == 0
            &&& base <= address
            &&& address - base < page_size
        }),
{
    let page_size = 1u64 << shift;
    vstd::bits::lemma_u64_pow2_no_overflow(shift as nat);
    vstd::bits::lemma_u64_shl_is_mul(1, shift);
    let mask = (page_size - 1) as u64;
    let base = address & !mask;
    assert(base & mask == 0 && base <= address && address - base == address & mask && address & mask <= mask)
        by (bit_vector)
        requires
            mask == page_size - 1,
            base == address & !mask;
    vstd::bits::lemma_u64_low_bits_mask_is_mod(base, shift as nat);
}

} // verus!
