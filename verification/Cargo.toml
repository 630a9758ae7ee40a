[package]
name = "nif_marshal"
version = "0.1.0"
edition = "2021"
publish = false

[dependencies]
rustler_sys = "*"
proc-macro2 = "1"
quote = "1"
syn = { version = "1", features = ["derive", "parsing", "printing"] }
