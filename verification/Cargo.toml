[package]
name = "kite_core"
version = "0.1.0"
edition = "2021"
publish = false

[dependencies]
bumpalo = { version = "3", features = ["collections"] }
chrono = "0.4"
fixedbitset = "0.4"
rust_decimal = "1"
siphasher = "1"
bincode = "1"
comfy-table = "7"
ordered-float = "4"
serde = { version = "1", features = ["derive"] }
sqlparser = "0.34"
