[package]
name = "cumulus"
version = "0.1.0"
edition = "2021"
publish = false

[dependencies]
anyhow = "1"
clap = { version = "4", features = ["derive"] }
colorous = "1"
csv = "1"
pcd-rs = "*"
ply-rs-bw = "*"
