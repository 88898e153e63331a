[package]
name = "taos"
version = "0.1.0"
edition = "2021"
publish = false

[dependencies]
bytes = "1"
goblin = "0.9"
crossbeam-queue = "0.3"
x86_64 = "0.15"
limine = "0.5"
spin = "0.9"
lazy_static = "1"
log = "0.4"
bitflags = "2"
raw-cpuid = "11"
uart_16550 = "0.3"
talc = "4"
