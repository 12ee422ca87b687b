[package]
name = "rpxy_lib"
version = "0.1.0"
edition = "2021"
publish = false

[dependencies]
http = "1"
md-5 = "0.10"
sha2 = "0.11"
