[package]
name = "scuttle_chat"
version = "0.1.0"
edition = "2021"
publish = false

[dependencies]
base64 = "=0.23.1"
ssb-crypto = "=0.2.3"
ssb-handshake = { version = "=0.5.1", default-features = false }
ssb-keyfile = "=0.5.4"
dirs = "=7.0.0"
genio = "=0.2.1"
net2 = "=0.2.39"
nix = { version = "=0.31.3", features = ["net"] }
termion = "=1.5.6"
tui = { version = "=0.19.0", default-features = false, features = ["termion"] }
