[package]
name = "daylight"
version = "0.1.0"
edition = "2021"
publish = false

[dependencies]
anyhow = "=1.0.104"
axum = "=0.8.9"
bytes = "=1.12.1"
clap = { version = "=4.6.7", features = ["derive", "env"] }
futures = "=0.3.34"
glob = "=0.3.4"
http = "=1.5.0"
reqwest = { version = "=0.13.5", default-features = false }
tokio = { version = "=1.54.1", features = ["rt-multi-thread", "net", "signal", "time"] }
tower = "=0.5.3"
tower-http = { version = "=0.7.1", features = ["catch-panic", "compression-gzip", "decompression-gzip", "limit", "metrics", "request-id", "trace"] }
tree-sitter = "=0.25.10"
tree-sitter-agda = "=1.3.3"
tree-sitter-bash = "=0.25.1"
tree-sitter-c = "=0.24.2"
tree-sitter-cpp = "=0.23.4"
tree-sitter-css = "=0.25.0"
tree-sitter-go = "=0.25.0"
tree-sitter-highlight = "=0.25.10"
tree-sitter-html = "=0.23.2"
tree-sitter-java = "=0.23.5"
tree-sitter-javascript = "=0.25.0"
tree-sitter-json = "=0.24.8"
tree-sitter-python = "=0.25.0"
tree-sitter-ruby = "=0.23.1"
tree-sitter-rust = "=0.24.2"
tree-sitter-typescript = "=0.23.2"

[dev-dependencies]
flatbuffers = "=25.12.19"
