//! Locating a byte signature with wildcard positions inside a buffer and
//! overwriting one byte at a fixed distance from the match.
//!
//! A signature is text: `\x` followed by two hexadecimal digits stands for
//! one exact byte, `.` stands for any byte, every other character is a
//! separator without meaning. The compiled form is a sequence of
//! `Option<u8>`: `Some(b)` accepts the byte `b` only, `None` accepts every
//! byte.

pub mod error;
pub mod patcher;
pub mod scanner;
pub mod signature;
