//! Asset runtime: the `.canasset` container format, handles and asset types.

pub mod format;
pub mod handle;
pub mod server;
pub mod types;
