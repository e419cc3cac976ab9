[package]
name = "wombat"
version = "0.1.0"
edition = "2021"
publish = false

[dependencies]
globset = "*"
handlebars = "*"
mlua = { version = "*", features = ["lua55", "vendored"] }
serde = { version = "1", features = ["derive"] }
serde_json = { version = "1", features = ["preserve_order"] }
serde-saphyr = "*"
sha2 = "*"
tempfile = "*"
toml = "*"
