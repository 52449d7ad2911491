[package]
name = "deno_graph"
version = "0.1.0"
edition = "2021"
publish = false

[dependencies]
deno_ast = { version = "0.46", features = ["visit"] }
deno_semver = "=0.7.1"
serde = { version = "=1.0.219", features = ["derive"] }
serde_json = "=1.0.140"
