[package]
name = "blend_render"
version = "0.1.0"
edition = "2021"
publish = false

[dependencies]
axum = "0.8"
axum_typed_multipart = "*"
http = "1"
lazy_static = "1"
nix = { version = "0.29", features = ["signal"] }
nvml-wrapper = "0.10"
redis = { version = "0.27", features = ["json"] }
regex = "1"
sanitize-filename = "0.6"
serde_json = "1"
socketioxide = "0.16"
tempfile = "3"
tokio = { version = "1", features = ["full"] }
tower-http = { version = "0.6", features = ["cors", "fs", "set-header"] }
zip = { version = "2", default-features = false, features = ["deflate"] }
