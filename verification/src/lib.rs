//! Recovery of SH-2 assembly listings from raw machine code.

pub mod config;
pub mod decode;
pub mod emit;
pub mod includes;
pub mod labels;
pub mod lines;
pub mod linker;
pub mod listing;
pub mod mnemonics;
pub mod operands;
pub mod order;
pub mod ranges;
pub mod segments;
pub mod text;
