//! Byte-pattern (AOB) signature scanning.
//!
//! A textual signature of hexadecimal byte pairs and `??` wildcards is
//! compiled into an immutable [`signature::Signature`], which the scanner in
//! [`scanner`] matches against arbitrary byte buffers, returning the first
//! position where every concrete byte of the pattern agrees with the buffer.

pub mod scanner;
pub mod signature;
pub mod text;
