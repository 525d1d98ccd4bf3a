[package]
name = "oxproc"
version = "0.1.0"
edition = "2021"
publish = false

[dependencies]
anyhow = "*"
blake3 = "*"
bytecount = "*"
chrono = "*"
clap = { version = "*", features = ["derive"] }
daemonize = "*"
fs2 = "*"
futures = "*"
nix = { version = "*", features = ["signal", "process", "fs"] }
serde = { version = "*", features = ["derive"] }
serde_json = "*"
thiserror = "*"
tokio = { version = "*", features = ["full"] }
toml = "*"
