[package]
name = "raw_h2"
version = "0.1.0"
edition = "2021"
publish = false

[dependencies]
log = "0.4"
ntex-bytes = "0.1"
ntex-codec = "0.6"
ntex-http = "0.1"
ntex-io = "2"
ntex-service = "3"
ntex-util = "2"
