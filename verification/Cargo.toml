[package]
name = "regularize_filename"
version = "0.1.0"
edition = "2021"

[dependencies]
structopt = "0.3"
