[package]
name = "epic_asset_manager"
version = "0.1.0"
edition = "2021"
publish = false

[dependencies]
regex = "=1.13.1"
sha1 = "=0.10.7"
version-compare = "=0.2.1"
byte-unit = "=5.2.6"
rand = "=0.9.5"
chrono = "=0.4.45"
egs-api = "=0.14.0"
serde_json = "=1.0.154"
html2pango = "*"
