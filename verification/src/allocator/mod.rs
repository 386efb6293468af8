//! Bump allocators for per-frame job data.

pub mod buffer;
pub mod linear;
pub mod paged;
