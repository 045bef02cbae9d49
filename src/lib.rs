//! Averaging and subtraction of astronomical image planes.
//!
//! The library is generic in the pixel type: the pixel arithmetic (addition,
//! division by a count, subtraction) is handed in by the caller as closures,
//! and every contract states the result in terms of what those closures ensure.
pub mod error;
pub mod image;
pub mod loader;
pub mod mean;
pub mod order;
pub mod pipeline;
