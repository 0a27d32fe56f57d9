[package]
name = "bofuzz"
version = "3.0.0"
edition = "2021"
publish = false

[dependencies]
clap = "4"
libafl = "0.15"
libafl_bolts = "0.15"
libafl_targets = { version = "0.15", features = ["sancov_pcguard_hitcounts", "sancov_cmplog", "libfuzzer"] }
mimalloc = { version = "0.1", default-features = false }
nix = { version = "0.29", features = ["fs"] }
serde = { version = "1", features = ["derive"] }
serde_json = "1"
