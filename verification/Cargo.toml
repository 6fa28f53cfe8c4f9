[package]
name = "srm"
version = "0.1.0"
edition = "2021"
publish = false

[dependencies]
bytesize = "1"
chrono = "0.4"
clap = { version = "4", features = ["derive"] }
ctrlc = "3"
fs2 = "0.4"
indicatif = "0.17"
libc = "0.2"
md5 = "0.7"
memmap2 = "0.9"
serde = { version = "1", features = ["derive"] }
serde_json = "1"
