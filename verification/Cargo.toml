[package]
name = "tagstore"
version = "0.1.0"
edition = "2021"
publish = false

[dependencies]
deadpool-postgres = "0.14"
envy = "0.4"
futures-util = "0.3"
prost = "0.13"
refinery = { version = "0.8", features = ["tokio-postgres"] }
serde = { version = "1", features = ["derive"] }
slog = "2"
slog-scope = "4"
slog-term = "2"
thiserror = "1"
tokio = { version = "1", features = ["rt-multi-thread", "signal", "macros"] }
tokio-postgres = "0.7"
tonic = "0.12"
