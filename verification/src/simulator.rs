//! What the desktop simulator needs from the library: the colour of each
//! panel shade and the device memory the simulated reader would take.
use vstd::prelude::*;
use crate::book::EPUB_WORKSPACE_CATALOG;
use crate::book::EPUB_WORKSPACE_INFLATE;
use crate::book::EPUB_WORKSPACE_PATH_BUF;
use crate::book::EPUB_WORKSPACE_STREAM_INPUT;
use crate::book::EPUB_WORKSPACE_XML;
use crate::book::EPUB_WORKSPACE_ZIP_CD;
use crate::epub::ReaderBuffers;
use crate::framebuffer::Framebuffer;
use crate::framebuffer::DISPLAY_HEIGHT;
use crate::framebuffer::DISPLAY_WIDTH;
use crate::framebuffer::SHADE_BLACK;
use crate::framebuffer::SHADE_BUFFER_SIZE;
use crate::memory::DeviceMemoryFootprint;
use crate::memory::saturating_mul_usize;

verus! {

/// Heap the simulated device allocates besides its fixed state.
pub const SIMULATOR_DEVICE_HEAP_BYTES: usize = 0;

/// The grey level of a shade: white, light grey, dark grey, black; larger shades are black.
pub open spec fn gray_of(shade: u8) -> u32 {
    if shade == 0 {
        0xFF
    } else if shade == 1 {
        0xAA
    } else if shade == 2 {
        0x55
    } else {
        0x00
    }
}

/// The `0x00RRGGBB` colour of a shade, the same level on each channel.
pub fn shade_to_rgb(shade: u8) -> (r: u32)
    ensures
        r == gray_of(shade) * 0x01_0101,
{
    let s = if shade < SHADE_BLACK { shade } else { SHADE_BLACK };
    let value: u32 = if s == 0 {
        0xFF
    } else if s == 1 {
        0xAA
    } else if s == 2 {
        0x55
    } else {
        0x00
    };
    assert((value << 16u32) | (value << 8u32) | value == value * 0x01_0101) by (bit_vector)
        requires
            value <= 0xFF,
    ;
    (value << 16u32) | (value << 8u32) | value
}

/// `x` where it fits in a `usize`, else `usize::MAX`.
pub open spec fn saturate(x: int) -> usize {
    if x > usize::MAX {
        usize::MAX
    } else {
        x as usize
    }
}

/// The bytes of the book-reading workspace: its own record, the inflation state
/// and the buffers at their default sizes.
pub fn epub_render_workspace_bytes() -> (r: usize)
    ensures
        r == saturate(vstd::layout::size_of::<ReaderBuffers>() + vstd::layout::size_of::<
            miniz_oxide::inflate::stream::InflateState,
        >() + EPUB_WORKSPACE_ZIP_CD + EPUB_WORKSPACE_INFLATE + EPUB_WORKSPACE_STREAM_INPUT + EPUB_WORKSPACE_XML
            + EPUB_WORKSPACE_CATALOG + EPUB_WORKSPACE_PATH_BUF),
{
    let buffers: usize = EPUB_WORKSPACE_ZIP_CD + EPUB_WORKSPACE_INFLATE + EPUB_WORKSPACE_STREAM_INPUT
        + EPUB_WORKSPACE_XML + EPUB_WORKSPACE_CATALOG + EPUB_WORKSPACE_PATH_BUF;
    let own = core::mem::size_of::<ReaderBuffers>();
    let stream = core::mem::size_of::<miniz_oxide::inflate::stream::InflateState>();
    own.saturating_add(stream).saturating_add(buffers)
}

/// The simulated device's memory: the frame (its record and packed pixels) and
/// the reading workspace on the device, and a host window of `scale`-times
/// enlarged 32-bit pixels besides.
pub fn simulator_device_memory_footprint(scale: usize) -> (r: DeviceMemoryFootprint)
    ensures
        r.device_bytes == saturate(vstd::layout::size_of::<Framebuffer>() + SHADE_BUFFER_SIZE
            + epub_render_workspace_spec() + SIMULATOR_DEVICE_HEAP_BYTES),
        r.device_heap_bytes == SIMULATOR_DEVICE_HEAP_BYTES,
        r.host_only_bytes == saturate(DISPLAY_WIDTH * DISPLAY_HEIGHT * scale * scale * 4),
{
    let frame = core::mem::size_of::<Framebuffer>();
    let workspace = epub_render_workspace_bytes();
    let device = frame.saturating_add(SHADE_BUFFER_SIZE).saturating_add(workspace).saturating_add(
        SIMULATOR_DEVICE_HEAP_BYTES,
    );
    let pixels: usize = (DISPLAY_WIDTH as usize) * (DISPLAY_HEIGHT as usize);
    let host = saturating_mul_usize(saturating_mul_usize(saturating_mul_usize(pixels, scale), scale), 4);
    proof {
        lemma_saturating_chain(pixels as int, scale as int);
    }
    DeviceMemoryFootprint::with_breakdown(device, SIMULATOR_DEVICE_HEAP_BYTES, host)
}

/// The workspace size, as `epub_render_workspace_bytes` computes it.
pub open spec fn epub_render_workspace_spec() -> usize {
    saturate(vstd::layout::size_of::<ReaderBuffers>() + vstd::layout::size_of::<
        miniz_oxide::inflate::stream::InflateState,
    >() + EPUB_WORKSPACE_ZIP_CD + EPUB_WORKSPACE_INFLATE + EPUB_WORKSPACE_STREAM_INPUT + EPUB_WORKSPACE_XML
        + EPUB_WORKSPACE_CATALOG + EPUB_WORKSPACE_PATH_BUF)
}

proof fn lemma_saturating_chain(p: int, s: int)
    requires
        p >= 0,
        s >= 0,
    ensures
        saturate(saturate(saturate(p * s) * s) * 4) == saturate(p * s * s * 4),
{
    let m = usize::MAX as int;
    let q = p * s;
    assert(q >= 0 && q * s >= 0) by (nonlinear_arith)
        requires
            p >= 0,
            s >= 0,
            q == p * s,
    ;
    assert(q * s * 4 >= q * s) by (nonlinear_arith)
        requires
            q * s >= 0,
    ;
    if q > m {
        assert(s >= 1) by (nonlinear_arith)
            requires
                q == p * s,
                q > 0,
                s >= 0,
        ;
        assert(m * s >= m && q * s >= q) by (nonlinear_arith)
            requires
                s >= 1,
                m > 0,
                q > 0,
        ;
    }
}

} // verus!
