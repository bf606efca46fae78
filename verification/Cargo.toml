[package]
name = "hl2"
version = "0.1.0"
edition = "2021"
publish = false

[dependencies]
num-complex = "=0.4.6"
rustfft = "=6.4.1"
mfsk-core = "=0.9.1"
cpal = "=0.15.3"
