//! A lightweight borrowed view over a byte sequence that is expected, but not
//! yet proven, to hold valid UTF-8 text.
//!
//! The [`RawStr`] type defers the cost and failure handling of UTF-8
//! validation until a consumer actually needs verified text, while still
//! offering comparison, formatting, and lossy-conversion operations on the
//! unvalidated bytes.

pub mod escape;
pub mod laws;
pub mod lossy;
pub mod raw_str;
mod trusted;

pub use raw_str::LossyStr;
pub use raw_str::RawStr;
