[package]
name = "pmc"
version = "2.0.0"
edition = "2021"
publish = false

[dependencies]
anyhow = "1"
chrono = { version = "0.4", default-features = false, features = ["clock", "serde", "std"] }
clap = { version = "4", features = ["derive"] }
clap-verbosity-flag = "2"
colored = "2"
env_logger = "0.11"
global_placeholders = "*"
hcl-rs = "0.16"
home = "0.5"
inquire = "0.7"
libc = "0.2"
log = "0.4"
merkle_hash = "3"
nix = { version = "0.29", features = ["signal"] }
num_cpus = "1"
once_cell = "1"
os_info = "3"
regex = "1"
reqwest = { version = "0.12", default-features = false, features = ["blocking", "json"] }
rmp-serde = "1"
ryu = "1"
serde = { version = "1", features = ["derive"] }
serde_json = "1"
tabled = "0.16"
toml = "0.8"
