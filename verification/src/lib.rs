use vstd::prelude::*;

pub mod decimal;
pub mod frame;
pub mod fs;
pub mod greeting;
pub mod platform;
pub mod registry;
pub mod render;
pub mod surface_hash;
pub mod surface_map;
pub mod text;

pub use platform::{CursorContext, NativeSurfaceContext, SurfaceContext};
pub use surface_hash::SurfaceHash;

verus! {

} // verus!
