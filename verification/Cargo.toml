[package]
name = "kybr"
version = "0.1.0"
edition = "2021"
publish = false

[dependencies]
rand = "0.8"
argmin = "0.10"
argmin-observer-slog = "0.1"
ctrlc = "3"
sudo = "0.6"
iced = { version = "0.13", default-features = false, features = ["tiny-skia"] }
