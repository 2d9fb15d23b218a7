[package]
name = "jboot"
version = "0.1.0"
edition = "2021"
publish = false

[dependencies]
cortex-m = { version = "=0.7.10", features = ["inline-asm", "critical-section-single-core"] }
defmt = "=0.3.101"
defmt-rtt = "=0.4.2"
embassy-executor = { version = "=0.7.0", features = ["defmt"] }
embassy-futures = "=0.1.2"
embassy-stm32 = { version = "=0.2.0", features = ["defmt", "stm32f205rc", "memory-x", "time-driver-any", "unstable-pac"] }
embassy-time = { version = "=0.4.0", features = ["defmt"] }
embassy-usb = { version = "=0.4.0", features = ["defmt"] }
panic-probe = { version = "=0.3.2", features = ["print-defmt"] }
static_cell = "=2.1.1"
