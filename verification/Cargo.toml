[package]
name = "platform_flow"
version = "0.1.0"
edition = "2021"
publish = false

[dependencies]
rand = "0.8"
rand_distr = "0.4"
statrs = "0.16"
csv = "1"
serde = { version = "1", features = ["derive"] }
svg = "*"
plotters = "0.3"
