[package]
name = "rocket"
version = "0.1.0"
edition = "2021"
publish = false

[dependencies]
bollard = "0.19"
clap = { version = "4", features = ["derive"] }
colored = "2"
flate2 = "1"
futures-util = "0.3"
http-body-util = "0.1"
nix = { version = "0.29", features = ["fs", "mount", "process", "sched", "signal", "user"] }
reqwest = { version = "0.12", default-features = false, features = ["rustls-tls"] }
serde = { version = "1", features = ["derive"] }
tar = "0.4"
toml = "0.8"
