//! The riscv64 virtual machine.
pub mod layout;
