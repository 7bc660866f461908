//! The aarch64 virtual machine.
pub mod layout;
