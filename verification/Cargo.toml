[package]
name = "pointctl"
version = "0.1.0"
edition = "2021"
publish = false

[dependencies]
bimap = "0.6"
clap = "2.33"
nalgebra = "0.21"
rstar = "0.8"
vpsearch = "2"
rayon = "1"
indicatif = { version = "0.15", features = ["rayon"] }
rand = "0.7"
rand_distr = "0.2"
