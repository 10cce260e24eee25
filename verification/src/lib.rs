//! A verified model of a minimal four-bit microprocessor: an assembler from
//! mnemonic text to packed instruction bytes, and a fetch-decode-execute
//! engine that runs those bytes against a two-register, carry-flag machine
//! with one input port and one output port.

pub mod compiler;
pub mod emulator;
pub mod error;
pub mod io;
pub mod opcode;
pub mod parser;
pub mod register;
pub mod rom;
pub mod token;
