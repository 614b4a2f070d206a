[package]
name = "vendorfiles"
version = "2.0.0"
edition = "2021"
publish = false

[dependencies]
clap = { version = "=4.6.7", features = ["derive"] }
clap_complete = "=4.6.11"
fancy-regex = "=0.20.0"
flate2 = "=1.1.10"
futures-util = "=0.3.34"
indexmap = { version = "=2.14.2", features = ["serde"] }
keyring-core = "=1.0.1"
linux-keyutils-keyring-store = "=1.0.0"
lzma-rs = "=0.3.0"
octocrab = "=0.41.2"
open = "5"
ratatui = { version = "=0.30.2", default-features = false, features = ["crossterm"] }
regex = "=1.13.1"
reqwest = { version = "=0.13.5", default-features = false, features = ["json", "stream", "rustls-no-provider"] }
rustls = { version = "=0.23.46", default-features = false, features = ["ring", "std"] }
secrecy = "=0.10.3"
self-replace = "=1.5.1"
serde = { version = "=1.0.229", features = ["derive"] }
serde_json = { version = "=1.0.154", features = ["preserve_order"] }
serde_yaml_ng = "=0.10.0"
tar = "=0.4.46"
tempfile = "=3.27.0"
thiserror = "=2.0.21"
tokio = { version = "=1.54.1", features = ["full"] }
toml_edit = { version = "=0.25.17", features = ["serde"] }
zip = { version = "=9.2.2", default-features = false, features = ["deflate"] }
