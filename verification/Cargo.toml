[package]
name = "httpdate"
version = "1.0.3"
edition = "2021"
publish = false

[dependencies]
datealgo = "*"
