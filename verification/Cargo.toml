[package]
name = "hypervisor_fw"
version = "0.1.0"
edition = "2021"
publish = false

[dependencies]
chrono = { version = "0.4", default-features = false }
r-efi = "*"
log = "0.4"
atomic_refcell = "*"
fdt = "*"
cpuio = "*"
uart_16550 = "*"
