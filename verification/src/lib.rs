//! RISC-V vector (ZveXx) execution helpers with verified contracts.

pub mod arith;
pub mod arith_instructions;
pub mod bytes;
pub mod carry;
pub mod carry_instructions;
pub mod config;
pub mod csr;
pub mod element_laws;
pub mod grouping;
pub mod laws;
pub mod load;
pub mod load_instructions;
pub mod mask;
pub mod mask_instructions;
pub mod muldiv;
pub mod muldiv_instructions;
pub mod register_file;
pub mod state;
pub mod types;
