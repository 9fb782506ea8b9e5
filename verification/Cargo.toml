[package]
name = "wyvern"
version = "1.4.0"
edition = "2021"
publish = false

[dependencies]
crc = "=1.8.1"
inflate = "=0.4.5"
gog = "=0.5.0"
structopt = "=0.2.18"
clap-verbosity-flag = "=0.2.0"
confy = "=0.3.1"
dirs = "=2.0.2"
serde = { version = "=1.0.229", features = ["derive"] }
serde_json = "=1.0.154"
dialoguer = "=0.4.0"
indicatif = "=0.11.0"
rayon = "=1.12.0"
walkdir = "=2.5.0"
zip = "=0.5.13"
curl = "=0.4.51"
reqwest = { version = "=0.11.27", features = ["blocking"] }
log = "=0.4.35"
