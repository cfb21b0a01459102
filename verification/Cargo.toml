[package]
name = "zup_rtfm"
version = "0.1.0"
edition = "2021"
publish = false

[dependencies]
heapless = "0.8"
proc-macro2 = "0.4"
quote = "0.6"
syn = { version = "0.15", features = ["full", "extra-traits"] }
