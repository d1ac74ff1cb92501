//! Assembler for the tape device, an 8-bit register machine with a 16-bit
//! address space. A line-oriented source is parsed into typed operations and
//! three symbol tables (labels, strings, data), then laid out as a
//! self-describing bytecode tape whose symbolic operands are back-patched with
//! their final addresses.
//!
//! - `params`, `language`: operands, the opcode catalogue, line dispatch.
//! - `strings`, `ops_section`, `assembler`: the sections of a source.
//! - `program_model`, `table`: the program the front end builds.
//! - `generator`: the tape layout; `guarantees`: what every tape satisfies.
//! - `debug_model`, `debug_builder`: the index from tape bytes back to source.
pub mod assembler;
pub mod constants;
pub mod debug_builder;
pub mod debug_model;
pub mod error;
pub mod generator;
pub mod guarantees;
pub mod language;
pub mod ops_section;
pub mod params;
pub mod program_model;
pub mod strings;
pub mod table;
pub mod text;
