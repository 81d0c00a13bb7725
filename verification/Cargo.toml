[package]
name = "python_ls"
version = "0.1.0"
edition = "2021"
publish = false

[dependencies]
dashmap = "6"
rustpython-ast = { version = "0.4", features = ["visitor"] }
rustpython-parser = "0.4"
tokio = { version = "1", features = ["io-std", "macros", "rt-multi-thread"] }
tower-lsp = "0.20"
