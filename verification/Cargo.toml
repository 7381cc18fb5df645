[package]
name = "server_monitor"
version = "0.1.0"
edition = "2021"
publish = false

[dependencies]
clap = { version = "=4.6.7", features = ["derive"] }
color-eyre = "=0.6.5"
dirs = "=7.0.0"
miette = { version = "7", features = ["fancy"] }
nix = { version = "=0.31.3", features = ["fs"] }
reqwest = "=0.12.28"
serde = { version = "1", features = ["derive"] }
tokio = { version = "=1.54.1", features = ["macros", "rt-multi-thread", "time"] }
tracing = "=0.1.44"
v_utils = { version = "=2.22.0", features = ["cli", "xdg"] }
