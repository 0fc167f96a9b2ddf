[package]
name = "archive_rclick"
version = "0.1.0"
edition = "2021"
publish = false

[dependencies]
time = "=0.3.55"
zip = { version = "=9.2.2", default-features = false, features = ["aes-crypto", "deflate-flate2-zlib-rs"] }
rayon = "=1.12.0"
tempfile = "=3.27.0"
raw-window-handle = "=0.6.2"
