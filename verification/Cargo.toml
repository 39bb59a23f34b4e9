[package]
name = "test_runner"
version = "0.1.0"
edition = "2021"
publish = false

[dependencies]
compact_str = "=0.10.0"
memchr = "=2.8.3"
oxc = { version = "0.70", features = ["semantic"] }
oxc_ast_visit = "0.70"
oxc_index = "=5.0.0"
oxc_resolver = "=11.24.3"
rustc-hash = "=2.1.3"
