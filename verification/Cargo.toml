[package]
name = "bytechess"
version = "0.1.0"
edition = "2021"
publish = false

[dependencies]
rand = "=0.9.5"
rayon = "=1.12.0"
chess = "=3.2.0"
pgn-reader = "0.26"
