[package]
name = "html_inline"
version = "0.1.0"
edition = "2021"
publish = false

[dependencies]
anyhow = "1"
clap = "2"
html5ever = "0.25"
image-base64-wasm = "*"
kuchiki = "0.8"
ureq = "2"
