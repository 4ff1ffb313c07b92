[package]
name = "azula"
version = "0.1.0"
edition = "2021"
publish = false

[dependencies]
gcd = "2"
rand = "0.8"
cidr-utils = "0.6"
clap = { version = "4", features = ["derive", "wrap_help"] }
serde = { version = "1", features = ["derive"] }
serde_derive = "1"
toml = "0.8"
dirs = "5"
async-std = "1"
futures = "0.3"
hickory-resolver = "0.24"
log = "0.4"
env_logger = "0.11"
ansi_term = "0.12"
colored = "2"
colorful = "0.3"
anyhow = "1"
text_placeholder = { version = "0.5", features = ["struct_context"] }
rlimit = "0.10"
