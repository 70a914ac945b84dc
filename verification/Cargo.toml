[package]
name = "import_usage"
version = "0.1.0"
edition = "2021"
publish = false

[dependencies]
anyhow = "*"
swc_common = "*"
swc_ecma_ast = "*"
swc_ecma_parser = { version = "*", features = ["typescript"] }
swc_ecma_visit = "*"
walkdir = "*"
