[package]
name = "cooklang"
version = "0.1.0"
edition = "2021"
publish = false

[dependencies]
emojis = "*"
finl_unicode = "=1.5.0"
humantime = "*"
indexmap = "*"
regex = "=1.13.1"
url = "*"
