[package]
name = "ruby_references"
version = "0.1.0"
edition = "2021"
publish = false

[dependencies]
anyhow = "1"
glob = "0.3"
globset = "0.4"
lib-ruby-parser = "4"
line-col = "0.2"
md5 = "0.7"
rayon = "1"
regex = "1"
serde = { version = "1", features = ["derive"] }
serde_json = "1"
tracing = "0.1"
