//! A declarative instruction-set decoder.
//!
//! An architecture is described as a trie of opcode groups, each covering a
//! number of bits with a mask that separates an opcode-selector field from
//! argument fields. The decoder walks that trie over a raw memory buffer and
//! resolves one instruction per call: its name, the bytes it consumed, and
//! its decoded argument values.

pub mod arch;
pub mod decoder;
pub mod emulator;
