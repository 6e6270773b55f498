[package]
name = "elba"
version = "0.1.0"
edition = "2021"
publish = false

[dependencies]
semver = "0.9"
sha2 = "0.7"
petgraph = "0.4"
tar = "0.4"
failure = "0.1"
slog = "2"
structopt = "0.2"
toml = "0.4"
reqwest = { version = "0.9", default-features = false }
