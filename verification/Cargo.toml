[package]
name = "supertonic_reader"
version = "0.1.0"
edition = "2021"
publish = false

[dependencies]
unicode-normalization = "0.1"
serde = { version = "1", features = ["derive"] }
serde_json = "1"
anyhow = "1"
hound = "3"
ndarray = "0.16"
rand = "0.8"
rand_distr = "0.4"
rodio = "0.19"
reqwest = { version = "0.12", default-features = false, features = ["rustls-tls", "stream"] }
tokio = { version = "1", features = ["fs", "rt", "rt-multi-thread"] }
futures-util = "0.3"
opener = "0.7"
ort = "2.0.0-rc.9"

[dev-dependencies]
regex = "1"
