[package]
name = "merged_lands"
version = "0.1.0"
edition = "2021"
publish = false

[dependencies]
anyhow = "1"
clap = { version = "3", features = ["derive"] }
filesize = "0.2"
filetime = "0.2"
hashbrown = "0.14"
image = { version = "0.24", default-features = false, features = ["png"] }
itertools = "0.10"
log = "0.4"
owo-colors = "3"
regex = "1"
serde = { version = "1", features = ["derive"] }
simplelog = "0.12"
tes3 = "*"
time = { version = "0.3", features = ["formatting", "local-offset"] }
toml = "0.5"
wild = "2"
