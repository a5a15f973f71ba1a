[package]
name = "svlint"
version = "0.1.0"
edition = "2021"
publish = false

[dependencies]
enquote = "1"
sv-parser = "0.13"
clap = { version = "3", features = ["derive"] }
toml = "0.5"
serde = { version = "1", features = ["derive"] }
anyhow = "1"
verilog-filelist-parser = "*"
regex = "1"
