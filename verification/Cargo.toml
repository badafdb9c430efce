[package]
name = "systemless"
version = "0.1.0"
edition = "2021"
publish = false

[dependencies]
m68k = "=0.2.5"
