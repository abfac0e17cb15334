[package]
name = "bevy_ggrs"
version = "0.1.0"
edition = "2021"
publish = false

[dependencies]
bevy = { version = "=0.10.1", default-features = false }
ggrs = { version = "=0.9.4", features = ["sync-send"] }
instant = "=0.1.13"
# Not used directly. ggrs 0.9.4 compiles against this release of bitfield-rle
# only: the next one changed the error type of `decode`.
bitfield-rle = "=0.2.0"
