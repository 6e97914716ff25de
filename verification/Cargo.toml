[package]
name = "i8042"
version = "0.1.0"
edition = "2021"
publish = false

[dependencies]
acpi = { version = "=5.2.0", default-features = false }
log = "=0.4.34"
uefi = "=0.41.0"
x86_64 = { version = "=0.15.5", default-features = false, features = ["instructions"] }
