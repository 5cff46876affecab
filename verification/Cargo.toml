[package]
name = "carrick"
version = "0.1.0"
edition = "2021"
publish = false

[dependencies]
dirs = "=7.0.0"
libc = "=0.2.191"
regex = "=1.13.1"
semver = "=1.0.28"
serde = { version = "=1.0.229", features = ["derive"] }
serde_json = { version = "=1.0.154", features = ["preserve_order"] }
sha2 = "=0.10.9"
swc_common = { version = "=27.0.0", features = ["sourcemap"] }
swc_ecma_ast = { version = "=30.0.0", features = ["serde-impl"] }
swc_ecma_parser = "=47.0.0"
swc_ecma_transforms_base = "=51.0.0"
swc_ecma_visit = "=30.0.0"
tracing = "=0.1.44"
