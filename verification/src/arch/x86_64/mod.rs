//! The x86-64 virtual machine.
pub mod vmx;
