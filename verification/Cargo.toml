[package]
name = "rust_verlet"
version = "0.1.0"
edition = "2021"
publish = false

[dependencies]
rand = "0.8"
rand_pcg = "0.3"
rand_seeder = "0.2"
chrono = "0.4"
now = "0.1"
cgmath = "0.18"
sdl2 = "*"
