//! What puts a window on the compositor, as decisions: the seat's input
//! reduced to contacts, the frame loop of each window, and the buffer
//! layouts the GPU is offered.
use vstd::prelude::*;

pub mod frames;
pub mod seat;
pub mod windows;

verus! {

/// `DRM_FORMAT_XRGB8888`: every target's format.
pub const XRGB8888: u32 = 0x3432_5258;

/// `DRM_FORMAT_MOD_INVALID`: a compositor's way of saying "implicit",
/// which GBM cannot be asked for.
pub const MOD_INVALID: u64 = 0x00ff_ffff_ffff_ffff;

/// The modifier a `zwp_linux_dmabuf_v1.modifier` event offers: its two
/// halves joined, high first.
pub open spec fn joined(hi: u32, lo: u32) -> int {
    (hi as u64) * 0x1_0000_0000 + (lo as u64)
}

/// A layout the compositor advertises, kept when it is for XRGB8888 and
/// not the implicit one: the modifier to offer the GPU, in the order
/// advertised.
pub fn on_dmabuf_modifier(format: u32, modifier_hi: u32, modifier_lo: u32) -> (m: Option<u64>)
    ensures
        m == if format == XRGB8888 && joined(modifier_hi, modifier_lo) != MOD_INVALID {
            Some(joined(modifier_hi, modifier_lo) as u64)
        } else {
            None
        },
{
    if format != XRGB8888 {
        return None;
    }
    let hi: u64 = modifier_hi as u64;
    let lo: u64 = modifier_lo as u64;
    let m: u64 = (hi << 32) | lo;
    assert((hi << 32) | lo == hi * 0x1_0000_0000 + lo) by (bit_vector)
        requires
            hi < 0x1_0000_0000,
            lo < 0x1_0000_0000,
    ;
    if m == MOD_INVALID {
        None
    } else {
        Some(m)
    }
}

/// `DRM_FORMAT_MOD_LINEAR`.
pub const MOD_LINEAR: u64 = 0;

/// The layout a new target reports: the modifier GBM chose for the
/// buffer it made from the compositor's list; linear where it made none
/// from the list (the list was empty or every entry refused, and the
/// buffer was made linear instead), or where it reports the implicit
/// layout, which a `zwp_linux_buffer_params_v1.add` does not take.
pub fn target_modifier(chosen: Option<u64>) -> (m: u64)
    ensures
        m == match chosen {
            Some(x) => if x == MOD_INVALID { MOD_LINEAR } else { x },
            None => MOD_LINEAR,
        },
{
    match chosen {
        Some(x) => if x == MOD_INVALID {
            MOD_LINEAR
        } else {
            x
        },
        None => MOD_LINEAR,
    }
}

/// Two `wl_shm` buffers per window over one unlinked file, and the fill.
pub struct Buffers;

impl Buffers {
    /// The pixel at `x`, `y` of a buffer: there is none yet to read.
    pub fn pixel(&self, slot: usize, x: u32, y: u32) -> (r: Option<u32>)
        ensures
            r is None,
    {
        None
    }
}

} // verus!
