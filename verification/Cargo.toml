[package]
name = "su"
version = "0.1.0"
edition = "2021"
publish = false

[dependencies]
urlencoding = "2"
mime_guess = "2"
rand = "0.8"
fastrand = "2"
tiny_http = "0.12"
serde = { version = "1", features = ["derive"] }
serde_json = "1"
dirs = "5"
get_if_addrs = "0.5"
local-ip-address = "0.6"
