[package]
name = "gaia"
version = "0.1.0"
edition = "2021"
publish = false

[dependencies]
md5 = "*"
zip = { version = "*", default-features = false, features = ["deflate"] }
anyhow = "*"
chrono = "*"
ctrlc = "*"
hound = "*"
image = { version = "*", default-features = false, features = ["png"] }
mdns-sd = "*"
reqwest = { version = "*", default-features = false, features = ["blocking", "json", "rustls-tls"] }
rubato = "*"
rusqlite = { version = "*", features = ["bundled"] }
rustfft = "*"
serde = { version = "*", features = ["derive"] }
serde_json = "*"
toml = "*"
tract-onnx = "*"
tract-tflite = "*"
tracing = "*"
tracing-subscriber = { version = "*", features = ["env-filter"] }
