[package]
name = "novel_translator"
version = "0.1.0"
edition = "2021"
publish = false

[dependencies]
epub = "*"
epub-builder = "*"
htmd = "*"
pulldown-cmark = "*"
base64 = "*"
