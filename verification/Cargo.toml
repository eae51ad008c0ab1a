[package]
name = "simple_http"
version = "0.1.0"
edition = "2021"
publish = false

[dependencies]
infer = "*"
percent-encoding = "*"
url-escape = "*"
walkdir = "*"
