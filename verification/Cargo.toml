[package]
name = "xcm_teleport"
version = "0.1.0"
edition = "2021"
publish = false

[dependencies]
sp-core = "*"
tokio = { version = "1", default-features = false, features = ["macros", "rt-multi-thread"] }
structopt = { version = "0.3", default-features = false }
color-eyre = { version = "0.6", default-features = false }
env_logger = { version = "0.9", default-features = false }

[dev-dependencies]
parity-scale-codec = "3"
