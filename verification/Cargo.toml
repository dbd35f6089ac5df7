[package]
name = "appmanager"
version = "0.1.0"
edition = "2021"
publish = false

[dependencies]
tree-sitter = "0.25"
tree-sitter-bash = "*"
serde = { version = "1", features = ["derive"] }
serde_json = "1"
libc = "0.2"
md5 = "*"
sha2 = "*"
zeroize = "*"
thiserror = "*"

[dev-dependencies]
tempfile = "3"
