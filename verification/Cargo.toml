[package]
name = "sdaa_data"
version = "0.1.0"
edition = "2021"
publish = false

[dependencies]
crossbeam = "*"
lockfree-object-pool = "*"
num = "*"
rustfft = "*"
chrono = "*"
ctrlc = "*"
clap = { version = "*", features = ["derive"] }
