[package]
name = "spool"
version = "0.1.0"
edition = "2021"
publish = false

[dependencies]
brine-tree = "*"
packx = "*"
crankx = "*"
