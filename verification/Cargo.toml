[package]
name = "subsmt"
version = "0.1.0"
edition = "2021"
publish = false

[dependencies]
parity-db = "*"
sha3 = "*"
actix-web = "*"
serde = { version = "*", features = ["derive"] }
serde_json = "*"
serde_with = "*"
tokio = { version = "*", features = ["macros", "rt", "signal"] }
clap = { version = "*", features = ["derive"] }
thiserror = "*"
log = "*"
flexi_logger = "*"

[dev-dependencies]
sparse-merkle-tree = "*"
tempfile = "*"
parity-scale-codec = "*"
hex = "*"
