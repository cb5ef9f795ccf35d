[package]
name = "imgorisort"
version = "0.1.0"
edition = "2021"
publish = false

[dependencies]
aho-corasick = "0.7"
failure = "0.1"
image = { version = "0.23", default-features = false, features = ["bmp", "gif", "ico", "jpeg", "png", "tiff", "webp"] }
log = "0.4"
stderrlog = "0.4"
structopt = "0.3"
walkdir = "2"
