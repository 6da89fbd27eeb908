[package]
name = "andromeda_os"
version = "0.1.0"
edition = "2021"
publish = false

[dependencies]
bootloader = { version = "=0.9.35", features = ["map_physical_memory"] }
crossbeam-queue = "=0.3.14"
lazy_static = "=1.5.1"
pic8259 = "=0.10.4"
spin = "=0.5.2"
volatile = "=0.2.7"
x86_64 = { version = "=0.14.13", default-features = false, features = ["instructions"] }
