[package]
name = "ruspar"
version = "0.1.0"
edition = "2021"
publish = false

[dependencies]
anyhow = "=1.0.104"
biquad = "=0.6.0"
bit_mask_ring_buf = { version = "=0.6.2", features = ["interpolation"] }
byteorder = "=1.5.0"
hound = "=3.5.1"
protobuf = "=3.7.2"
rand = "=0.10.3"
realfft = "=3.5.0"
rosc = "=0.11.4"
