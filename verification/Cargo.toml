[package]
name = "multisignal"
version = "0.1.0"
edition = "2021"
publish = false

[dependencies]
gtk4 = { version = "*", features = ["v4_14"] }
libadwaita = { version = "*", features = ["v1_5"] }
thiserror = "2"
