//! Resample backends: the CPU path (`fast_image_resize`) and the GPU upload staging.

use vstd::prelude::*;

pub mod cpu;
pub mod gpu;

verus! {

/// Which backend is used to resample (crop + resize) tile pixels.
#[derive(Debug, Clone, Copy, PartialEq, Eq, Structural)]
pub enum ResampleBackend {
    Cpu,
}

impl Default for ResampleBackend {
    fn default() -> (b: Self)
        ensures
            b == ResampleBackend::Cpu,
    {
        ResampleBackend::Cpu
    }
}

} // verus!
