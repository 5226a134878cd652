[package]
name = "lrclib_core"
version = "0.1.0"
edition = "2021"
publish = false

[dependencies]
aho-corasick = "=1.1.5"
anyhow = "1"
axum = "0.7"
collapse = "=0.1.2"
crossbeam-queue = "=0.3.14"
dashmap = "=6.2.1"
hex = "=0.4.3"
moka = { version = "0.12", features = ["future"] }
r2d2 = "0.8"
r2d2_sqlite = { version = "0.35", features = ["bundled"] }
regex = "=1.13.1"
secular = { version = "=1.0.1", features = ["bmp"] }
serde = { version = "1", features = ["derive"] }
sha2 = "=0.10.9"
subtle = "=2.6.1"
tokio = { version = "1", features = ["full"] }
tower-http = { version = "0.5", features = ["cors", "trace"] }
tracing = "0.1"
tracing-subscriber = { version = "0.3", features = ["env-filter"] }
