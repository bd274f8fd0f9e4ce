[package]
name = "veloren_logic"
version = "0.1.0"
edition = "2021"
publish = false

[dependencies]
vek = "=0.14.1"
rand = "=0.8.8"
guillotiere = "=0.6.2"
prometheus = "0.13"
