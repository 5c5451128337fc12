[package]
name = "robust_curves"
version = "0.1.0"
edition = "2021"
publish = false

[dependencies]
rand = "0.8"
serde = { version = "1", features = ["derive"] }
serde_json = "1"
bincode = "1"
rusqlite = { version = "*", features = ["bundled"] }
r2d2 = "*"
r2d2_sqlite = { version = "*", features = ["bundled"] }
anyhow = "1"
itertools = "*"
rayon = "1"
tokio = { version = "1", features = ["rt-multi-thread", "macros"] }
axum = "0.6"
tower-http = { version = "*", features = ["trace"] }
indicatif = "*"
plotly = "*"
