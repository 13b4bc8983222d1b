[package]
name = "specgraphen"
version = "0.1.0"
edition = "2021"
publish = false

[dependencies]
anyhow = "*"
clap = { version = "*", features = ["derive"] }
encoding_rs = "*"
glob = "*"
higher-graphen-core = "*"
higher-graphen-evidence = "*"
higher-graphen-projection = "*"
higher-graphen-reasoning = "*"
higher-graphen-structure = "*"
serde = { version = "*", features = ["derive"] }
serde_json = "*"
tokio = { version = "*", features = ["full"] }
tracing = "*"
tracing-subscriber = { version = "*", features = ["env-filter"] }
tree-sitter = "*"
tree-sitter-java = "*"
