[package]
name = "qpm_cli"
version = "0.1.0"
edition = "2021"
publish = false

[dependencies]
semver = "1"
pubgrub = "0.3"
serde = { version = "1", features = ["derive"] }
serde_json = "1"
serde-xml-rs = "*"
clap = { version = "4", features = ["derive"] }
color-eyre = "0.6"
owo-colors = "4"
ureq = { version = "3", default-features = false, features = ["json"] }
reqwest = { version = "*", default-features = false, features = ["blocking", "json"] }
zip = { version = "*", default-features = false, features = ["deflate"] }
bytes = "1"
itertools = "*"
walkdir = "2"
sha2 = "0.10"
hex = "0.4"
dirs = "*"
fs_extra = "1"
symlink = "0.1"
thiserror = "*"
schemars = "*"
log = "0.4"
pbr = "1"
indicatif = "*"
