[package]
name = "barrel_files"
version = "0.1.0"
edition = "2021"
publish = false

[dependencies]
once_cell = "=1.21.4"
pathdiff = "=0.2.3"
regex = "=1.13.1"
serde = { version = "=1.0.229", features = ["derive"] }
serde_json = "=1.0.154"
swc_core = { version = "=82.2.0", features = ["common", "ecma_ast", "ecma_visit", "ecma_parser", "ecma_parser_typescript", "ecma_plugin_transform"] }
