[package]
name = "pba"
version = "0.1.0"
edition = "2021"
publish = false

[dependencies]
rand = "0.8"
rand_seeder = "0.2"
nalgebra = "0.32"
chrono = "0.4"
rayon = "1"
