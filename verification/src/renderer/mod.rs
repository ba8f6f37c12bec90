//! Renderer-side logic that holds no floating-point data: the debug overlay
//! toggles and asset classification for the overlay's breakdown.

pub mod debug;
pub mod gpu_assets;
