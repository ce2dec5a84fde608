[package]
name = "op_dispatch"
version = "0.1.0"
edition = "2021"
publish = false

[dependencies]
deno_core = "0.45"
serde_json = "1"
