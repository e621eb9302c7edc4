[package]
name = "gridgame"
version = "0.1.0"
edition = "2021"
publish = false

[dependencies]
bytes = "=0.4.12"
futures = "=0.1.31"
tokio-core = "=0.1.18"
tokio-io = "=0.1.13"
tokio-serde-bincode = "=0.1.1"
tokio-timer = "=0.1.2"
bincode = "=0.8.0"
serde = "=1.0.229"
serde_derive = "=1.0.229"
rand = "=0.4.6"
nalgebra = "0.29"
piston2d-graphics = "=0.45.0"
