//! Decoding of a touch-panel controller's byte stream into touch records,
//! and the state machines that turn those records into host pointer or
//! multi-touch input.

pub mod capture;
pub mod config;
pub mod device;
pub mod model;
pub mod stream;
