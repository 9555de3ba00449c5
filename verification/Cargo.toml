[package]
name = "concurrency_lib"
version = "0.1.0"
edition = "2021"
publish = false

[dependencies]
crossbeam = "0.8"
rayon = "1"
rand = "0.8"
rand_distr = "0.4"
clap = "4"
ansi_term = "0.12"
anyhow = "1"
flate2 = "1"
tar = "0.4"
