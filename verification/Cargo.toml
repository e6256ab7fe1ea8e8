[package]
name = "less"
version = "0.1.0"
edition = "2021"
publish = false

[dependencies]
arraydeque = "=0.4.5"
nom = "=7.1.3"
winnow = "0.5"
