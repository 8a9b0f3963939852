//! A small stack machine whose one array holds both operands and call frames,
//! and a linker that turns function-relative bytecode into the flat, address
//! resolved instruction stream the machine runs.

pub mod llang;
pub mod vm;
