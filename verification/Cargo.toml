[package]
name = "tap_tempo"
version = "0.1.0"
edition = "2021"
publish = false

[dependencies]
instant = "0.1"
wee_alloc = "0.4"
yew = "0.18"
