[package]
name = "rusty_deps"
version = "0.1.0"
edition = "2021"
publish = false

[dependencies]
anyhow = "*"
clap = { version = "*", features = ["derive"] }
colored = "*"
crates-index = { version = "*", default-features = false, features = ["sparse"] }
http = "*"
reqwest = { version = "*", default-features = false, features = ["blocking", "gzip"] }
semver = "*"
