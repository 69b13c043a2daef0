[package]
name = "rad"
version = "0.1.0"
edition = "2021"
publish = false

[dependencies]
serde = { version = "1", features = ["derive"] }
serde_json = "1"
jsonc-parser = { version = "*", features = ["serde"] }
diffy = "*"
dirs = "*"
clap = { version = "4", features = ["derive"] }
rustyline = "*"
nix = { version = "*", features = ["term", "process", "signal"] }
notify = "*"
parking_lot = "*"
reqwest = { version = "*", default-features = false, features = ["stream"] }
tokio = { version = "1", features = ["rt", "time"] }
futures-util = "*"
bytes = "*"
tree-sitter = "*"
tree-sitter-rust = "*"
