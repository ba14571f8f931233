[package]
name = "t_os"
version = "0.1.0"
edition = "2021"
publish = false

[dependencies]
bootloader = { version = "0.9", features = ["map_physical_memory"] }
lazy_static = { version = "1.0", features = ["spin_no_std"] }
spin = "0.5.2"
volatile = "0.2.6"
x86_64 = { version = "0.14.2", default-features = false, features = ["instructions"] }
