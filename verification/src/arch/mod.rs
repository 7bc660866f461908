//! What differs between the architectures the firmware runs on.
pub mod aarch64;
pub mod riscv64;
pub mod x86_64;
