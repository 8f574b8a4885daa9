[package]
name = "fa_tool"
version = "0.1.0"
edition = "2021"
publish = false

[dependencies]
clap = "4"
serde = "1"
walkdir = "2"
yeslogic-fontconfig-sys = { version = "*", features = ["dlopen"] }
