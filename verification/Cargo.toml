[package]
name = "pheres"
version = "0.1.0"
edition = "2021"

[dependencies]
rowan = "0.15"
codespan-reporting = "0.11"
