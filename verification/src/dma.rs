//! Buffer-address translation over the shared DMA region.
//!
//! Three frames of reference coexist: the client encodes buffer
//! addresses as absolute addresses inside the shared DMA region, the
//! driver reads and writes the region through local offsets, and the
//! device takes whatever the transport derives from the local range.
//! This module performs the first translation — descriptor to local
//! range — and proves it is a bijection on the region.

use vstd::prelude::*;
use crate::block_io::BufferDescriptor;
use crate::error::FatalError;

verus! {

/// The shared DMA window as this driver knows it: its base address in
/// the client's (physical) frame of reference and its size in bytes.
#[derive(Clone, Copy, PartialEq, Eq, Structural, Debug)]
pub struct DmaRegion {
    /// Base address of the region in the frame the client encodes
    /// buffer addresses in.
    pub paddr: usize,
    /// Size of the region in bytes.
    pub size: usize,
}

/// A byte range local to the shared DMA region: the driver indexes its
/// mapping of the region with exactly this range.
#[derive(Clone, Copy, PartialEq, Eq, Structural, Debug)]
pub struct LocalRange {
    /// Offset of the first byte from the start of the region.
    pub start: usize,
    /// Length of the range in bytes.
    pub len: usize,
}

impl DmaRegion {
    /// A region is well formed when its last address still fits in the
    /// address space.
    pub open spec fn wf(self) -> bool {
        self.paddr + self.size <= usize::MAX
    }
}

/// A descriptor is valid for a region when its whole range lies inside
/// the region.
pub open spec fn descriptor_in_region(buf: BufferDescriptor, region: DmaRegion) -> bool {
    &&& region.paddr <= buf.encoded_addr
    &&& buf.encoded_addr - region.paddr + buf.len <= region.size
}

/// The local range a valid descriptor translates to.
pub open spec fn spec_translate(buf: BufferDescriptor, region: DmaRegion) -> LocalRange {
    LocalRange { start: (buf.encoded_addr - region.paddr) as usize, len: buf.len as usize }
}

/// The descriptor a local range translates back to.
pub open spec fn spec_untranslate(range: LocalRange, region: DmaRegion) -> BufferDescriptor {
    BufferDescriptor {
        encoded_addr: (region.paddr + range.start) as usize,
        len: range.len as u32,
    }
}

/// A local range lies inside the region and describes a buffer a
/// descriptor can carry.
pub open spec fn range_in_region(range: LocalRange, region: DmaRegion) -> bool {
    &&& range.start + range.len <= region.size
    &&& range.len <= u32::MAX
}

/// Converts a client buffer descriptor into a local range over the
/// shared DMA region, refusing any descriptor that lies outside the
/// region. Purely computational: the one address computation of the
/// driver, called on submission and again on completion.
pub fn translate_buffer(buf: BufferDescriptor, region: DmaRegion) -> (r: Result<
    LocalRange,
    FatalError,
>)
    requires
        region.wf(),
    ensures
        r is Ok <==> descriptor_in_region(buf, region),
        r is Ok ==> r->Ok_0 == spec_translate(buf, region),
        r is Err ==> r->Err_0 == FatalError::BufferOutOfRegion,
{
    if buf.encoded_addr < region.paddr {
        return Err(FatalError::BufferOutOfRegion);
    }
    let start = buf.encoded_addr - region.paddr;
    if start > region.size {
        return Err(FatalError::BufferOutOfRegion);
    }
    let len = buf.len as usize;
    if len > region.size - start {
        return Err(FatalError::BufferOutOfRegion);
    }
    Ok(LocalRange { start, len })
}

/// Translation sends every valid descriptor to a range that lies
/// entirely inside the region and has the descriptor's exact length.
pub proof fn lemma_translate_in_region(buf: BufferDescriptor, region: DmaRegion)
    requires
        region.wf(),
        descriptor_in_region(buf, region),
    ensures
        range_in_region(spec_translate(buf, region), region),
        spec_translate(buf, region).len == buf.len,
{
}

/// Translation is injective on the region: two valid descriptors that
/// translate to the same local range are the same descriptor.
pub proof fn lemma_translate_injective(
    b1: BufferDescriptor,
    b2: BufferDescriptor,
    region: DmaRegion,
)
    requires
        region.wf(),
        descriptor_in_region(b1, region),
        descriptor_in_region(b2, region),
        spec_translate(b1, region) == spec_translate(b2, region),
    ensures
        b1 == b2,
{
}

/// Translation is invertible: translating a valid descriptor and
/// mapping the range back yields the descriptor again, and every range
/// inside the region is the image of exactly that descriptor. Together
/// with injectivity this makes translation a bijection between valid
/// descriptors and in-region ranges.
pub proof fn lemma_translate_round_trip(
    buf: BufferDescriptor,
    range: LocalRange,
    region: DmaRegion,
)
    requires
        region.wf(),
        descriptor_in_region(buf, region),
        range_in_region(range, region),
    ensures
        spec_untranslate(spec_translate(buf, region), region) == buf,
        descriptor_in_region(spec_untranslate(range, region), region),
        spec_translate(spec_untranslate(range, region), region) == range,
{
}

} // verus!
