[package]
name = "ts_ty"
version = "0.1.0"
edition = "2021"
publish = false

[dependencies]
rustc-hash = "=2.1.3"
oxc = { version = "=0.38.0", features = ["semantic"] }
oxc_syntax = { version = "=0.38.0", features = ["to_js_string"] }
