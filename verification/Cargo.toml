[package]
name = "capabara"
version = "0.1.0"
edition = "2021"
publish = false

[dependencies]
anyhow = "1"
ar = "*"
cargo_metadata = "*"
clap = { version = "4", features = ["derive"] }
cpp_demangle = "*"
env_logger = "*"
eon = "*"
itertools = "*"
log = "0.4"
object = "*"
petgraph = "*"
proc-macro2 = "1"
rand = "0.9"
regex = "1"
rustc-demangle = "0.1"
serde = { version = "1", features = ["derive"] }
serde_json = "1"
syn = { version = "2", features = ["full", "visit"] }
