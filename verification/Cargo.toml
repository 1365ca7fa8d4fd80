[package]
name = "relayd"
version = "0.1.0"
edition = "2021"
publish = false

[dependencies]
arc-swap = "*"
derive_more = { version = "*", features = ["display", "from", "deref", "deref_mut"] }
futures = "*"
getopts = "*"
nix = { version = "*", features = ["process", "signal"] }
privsep = "*"
privsep-derive = "*"
privsep-log = "*"
serde = { version = "*", features = ["derive"] }
serde_with = "*"
tokio = { version = "*", features = ["rt-multi-thread", "macros", "net", "time", "signal", "fs", "io-util"] }
