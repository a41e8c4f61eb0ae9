[package]
name = "hexler"
version = "0.1.0"
edition = "2021"
publish = false

[dependencies]
chrono = "0.4"
clap = { version = "4", features = ["derive"] }
minus = { version = "5", features = ["static_output"] }
rayon = "1"
size = "*"
terminal_size = "*"
thiserror = "2"
