[package]
name = "udf-core"
version = "0.1.0"
edition = "2021"
publish = false

[dependencies]
base64 = "*"
roxmltree = "*"
zip = { version = "*", default-features = false, features = ["deflate"] }

[dev-dependencies]
