//! A verified CHIP-8 interpreter core: machine state, instruction decoding,
//! and the fetch-decode-execute cycle, with the historically ambiguous
//! behaviors exposed as explicit quirk options.

pub mod state;
pub mod machine;
pub mod decode;
pub mod sem;
pub mod exec;
pub mod laws;
