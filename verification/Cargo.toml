[package]
name = "csv_records"
version = "0.1.0"
edition = "2021"
publish = false

[dependencies]
itertools = "*"
strum = { version = "*", features = ["derive"] }
thiserror = "*"
