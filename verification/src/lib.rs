//! Typed program values with a dual representation: a strict textual grammar
//! (path accesses and array-type declarations) and a canonical binary
//! encoding with independently selectable compression and validation modes,
//! plus optional flag metadata packed alongside the payload bytes.
//!
//! Every operation is a pure, panic-free function of its inputs: parsers
//! consume a prefix and hand back the remainder, numeric literals are
//! bounds-checked, constructors validate, and decoders re-validate rather
//! than trust the byte stream.

pub mod access;
pub mod array_type;
pub mod digits;
pub mod element_type;
pub mod errors;
pub mod flags;
pub mod identifier;
pub mod serialize;
