[package]
name = "supergrid"
version = "0.1.0"
edition = "2021"

[dependencies]
arrayvec = "0.7"
