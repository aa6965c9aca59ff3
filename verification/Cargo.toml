[package]
name = "unbounded_spsc"
version = "0.1.0"
edition = "2021"
publish = false

[dependencies]
bounded-spsc-queue = "*"
