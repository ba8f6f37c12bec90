//! Platform-facing state that holds no floating-point data: key and button
//! codes, the per-frame button snapshot, modifier flags and window settings.

pub mod event;
pub mod input;
pub mod window;
