[package]
name = "fast_mmaped_file"
version = "0.1.0"
edition = "2021"
publish = false

[dependencies]
memmap2 = "*"
nix = { version = "*", default-features = false, features = ["feature", "fs"] }
rustc_apfloat = "*"
