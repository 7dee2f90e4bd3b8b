[package]
name = "power_sheets"
version = "0.1.0"
edition = "2021"
publish = false

[dependencies]
kuchikiki = "0.8"
quick-xml = "0.22"
rusqlite = "*"
