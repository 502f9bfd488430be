[package]
name = "mechanix"
version = "0.1.0"
edition = "2021"
publish = false

[dependencies]
io-uring = "=0.7.15"
libc = "=0.2.191"
smallvec = "=1.16.4"
bitflags = "=2.13.2"
bytemuck = "=1.25.2"
taffy = "=0.15.1"
glow = "=0.18.0"
khronos-egl = { version = "=6.0.0", features = ["dynamic"] }
gbm = { version = "=0.18.0", default-features = false }
