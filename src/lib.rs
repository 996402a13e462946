//! A register-based bytecode virtual machine for a small scripting language,
//! with the services its host offers alongside.
//!
//! - [`value`]: the runtime values and their mathematical view.
//! - [`number`]: equality, order and truthiness of binary64 bit patterns.
//! - [`opcode`]: the instruction set and its encoding.
//! - [`vm`]: the machine state and the step function, specified by `next`.
//! - [`laws`]: properties that relate several values, instructions or steps.
//! - [`symbols`]: declared symbols and completions for editor tooling.
//! - [`hashing`]: hex digests.
pub mod hashing;
pub mod laws;
pub mod number;
pub mod opcode;
pub mod symbols;
pub mod value;
pub mod vm;
