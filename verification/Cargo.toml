[package]
name = "expenses"
version = "0.1.0"
edition = "2021"
publish = false

[dependencies]
chrono = "0.4"
clap = { version = "4", features = ["derive"] }
color-eyre = "0.6"
rusqlite = { version = "*", features = ["chrono"] }
tabled = "*"
