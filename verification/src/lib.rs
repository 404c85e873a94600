//! Verified core of the compute-shader bridge and its reference renderer.
use vstd::prelude::*;

pub mod runs;
pub mod text;
pub mod names;
pub mod reflect;
pub mod frontend;
pub mod engine;
pub mod staging;
pub mod buffer;
pub mod commands;
pub mod bind_group;
pub mod bridge;
pub mod cpu_render;

verus! {
} // verus!
