[package]
name = "gsync"
version = "0.1.0"
edition = "2021"
publish = false

[dependencies]
indicatif = "*"
log = "0.4"
log4rs = "1"
regex = "1"
rpassword = "5"
serde = { version = "1", features = ["derive"] }
serde_json = "1"
ssh2 = "0.9"
structopt = "0.3"
