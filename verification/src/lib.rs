//! Core of a recorded-data log stream: the versioned, compressed,
//! length-framed binary codec for log messages, and the columnar component
//! cell that is the leaf unit of data those messages carry.

pub mod version;
pub mod wire;
pub mod msg;
pub mod codec;
pub mod cell;
pub mod renderer;

