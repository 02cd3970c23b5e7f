[package]
name = "trustzone_m"
version = "0.1.0"
edition = "2021"
publish = false

[dependencies]
anyhow = "=1.0.104"
cortex-m = "=0.7.10"
crc = "=3.4.0"
nrf5340-app-pac = "*"
nrf9160-pac = "=0.12.2"
prettyplease = "=0.1.25"
proc-macro2 = "=1.0.107"
quote = "=1.0.47"
syn = { version = "=1.0.109", features = ["full", "extra-traits"] }
