[package]
name = "verilator_simulation_manager"
version = "0.1.0"
edition = "2021"
publish = false

[dependencies]
fxhash = "0.2"
rand = "0.8"
rand_chacha = "0.3"
libc = "0.2"
ctrlc = "3"
