[package]
name = "hstats"
version = "0.1.0"
edition = "2021"
publish = false

[dependencies]
rolling-stats = "*"

[dev-dependencies]
rand = "0.8"
rand_distr = "0.4"
