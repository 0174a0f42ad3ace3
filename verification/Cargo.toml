[package]
name = "asyncgit"
version = "0.1.0"
edition = "2021"
publish = false

[dependencies]
crossbeam-channel = "=0.5.17"
gix = { version = "=0.90.0", default-features = false, features = ["sha1"] }
log = "=0.4.35"
rayon-core = "=1.13.0"
scopetime = "=0.1.2"
