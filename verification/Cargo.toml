[package]
name = "uring_ops"
version = "0.1.0"
edition = "2021"
publish = false

[dependencies]
iou = "*"
nix = "*"
