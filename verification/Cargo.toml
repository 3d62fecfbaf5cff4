[package]
name = "jolang"
version = "0.1.0"
edition = "2021"
publish = false

[dependencies]
index_list = "=0.2.17"
semver = "=1.0.28"
rand = "=0.8.8"
anyhow = "=1.0.104"
clap = { version = "=4.5.61", features = ["derive"] }
clio = { version = "=0.3.5", features = ["clap-parse"] }
current_platform = "=0.2.0"
c-enum = "*"
