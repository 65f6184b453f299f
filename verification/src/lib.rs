//! A runtime binary-patching engine for 32-bit x86 code.
//!
//! The library decodes and encodes immediate-operand branch instructions,
//! compiles declarative patch templates into fixed-layout code buffers with
//! named placeholders, and drives pattern and address searches over the
//! memory regions of a live process. Address arithmetic is 32-bit with
//! two's-complement wraparound throughout.
//!
//! The engine itself never touches raw memory: callers hand it instruction
//! bytes, region descriptions and buffer base addresses as plain values, and
//! apply its outputs with whatever platform primitives they hold.

pub mod addr;
pub mod branch;
pub mod input;
pub mod mem;
pub mod patch;
pub mod template;
