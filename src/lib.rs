//! A tick-paced pixel framebuffer engine: input packets are decoded into an
//! input snapshot, entities move by it, and each tick composites them into a
//! fresh RGBA frame with fixed-point alpha blending.
use vstd::prelude::*;

pub mod compositor;
pub mod input;
pub mod entity;
pub mod sprite;
pub mod schedule;
pub mod engine;

verus! {

} // verus!
