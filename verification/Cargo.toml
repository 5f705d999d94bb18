[package]
name = "saga_seeker_html2md"
version = "1.2.0"
edition = "2021"
publish = false

[dependencies]
encoding_rs = "0.8"
html-to-markdown-rs = "*"
kuchiki = "0.8"
serde_json = "1"
