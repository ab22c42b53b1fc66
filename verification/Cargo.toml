[package]
name = "iotactl"
version = "0.1.0"
edition = "2021"
publish = false

[dependencies]
arborium-dockerfile = "=2.18.2"
async-trait = "=0.1.92"
clap = { version = "=4.6.7", features = ["derive"] }
crossterm = { version = "=0.28.1", features = ["event-stream"] }
ratatui = { version = "=0.29.0", features = ["unstable-rendered-line-info"] }
serde_json = { version = "=1.0.154", features = ["preserve_order"] }
shlex = "=1.3.0"
tokio = { version = "=1.54.1", features = ["full"] }
tokio-stream = "=0.1.19"
tree-sitter = "=0.27.1"
tree-sitter-bash = "=0.25.1"
tree-sitter-c = "=0.24.2"
tree-sitter-cpp = "=0.23.4"
tree-sitter-css = "=0.25.0"
tree-sitter-go = "=0.25.0"
tree-sitter-highlight = "=0.27.1"
tree-sitter-html = "=0.23.2"
tree-sitter-java = "=0.23.5"
tree-sitter-javascript = "=0.25.0"
tree-sitter-json = "=0.24.8"
tree-sitter-language = "=0.1.9"
tree-sitter-lua = "=0.5.0"
tree-sitter-md = "=0.5.4"
tree-sitter-python = "=0.25.0"
tree-sitter-ruby = "=0.23.1"
tree-sitter-rust = "=0.24.2"
tree-sitter-toml-ng = "=0.7.0"
tree-sitter-typescript = "=0.23.2"
tree-sitter-yaml = "=0.7.2"
zip = { version = "=2.6.1", default-features = false, features = ["deflate"] }
