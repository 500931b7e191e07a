[package]
name = "build_shaper_font"
version = "0.1.0"
edition = "2021"
publish = false

[dependencies]
fea-rs = "=1.0.0"
fontdrasil = "=1.0.0"
write-fonts = "=0.52.0"
