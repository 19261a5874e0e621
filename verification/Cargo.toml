[package]
name = "mediaserver"
version = "0.1.0"
edition = "2021"
publish = false

[dependencies]
anyhow = "1"
axum = "0.8"
axum-server = { version = "0.7", features = ["tls-rustls-no-provider"] }
base64 = "=0.22.1"
clap = { version = "4", features = ["derive"] }
flate2 = "=1.1.10"
httpdate = "=1.0.3"
if-addrs = "=0.15.0"
image = { version = "=0.25.10", default-features = false, features = ["jpeg", "png", "webp", "gif", "bmp"] }
lofty = "=0.22.4"
notify-debouncer-full = "=0.7.0"
quick-xml = "=0.40.1"
regex = "=1.13.1"
reqwest = { version = "0.12", default-features = false, features = ["blocking", "json", "rustls-tls"] }
ring = "=0.17.14"
rusqlite = { version = "=0.41.1", features = ["bundled"] }
rustls = { version = "0.23", default-features = false, features = ["ring", "std", "tls12"] }
rusty-chromaprint = "=0.3.0"
serde = { version = "1", features = ["derive"] }
serde_json = "1"
socket2 = { version = "=0.6.5", features = ["all"] }
tokio = { version = "1", features = ["full"] }
toml = "=1.1.8"
tower = { version = "0.5", features = ["util"] }
tower-http = { version = "0.6", features = ["fs"] }
tracing = "0.1"
tracing-subscriber = { version = "0.3", features = ["env-filter"] }
uuid = { version = "=1.29.0", features = ["v4"] }
walkdir = "2"
