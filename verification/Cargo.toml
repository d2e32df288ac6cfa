[package]
name = "shinnku"
version = "0.1.0"
edition = "2021"
publish = false

[dependencies]
uuid = { version = "=1.29.0", features = ["v5", "serde"] }
rand = "=0.8.8"
chrono = { version = "=0.4.45", features = ["serde"] }
reqwest = { version = "=0.12.28", default-features = false, features = ["json"] }
serde = { version = "=1.0.229", features = ["derive"] }
serde_json = "=1.0.154"
tokio = { version = "=1.54.1", features = ["rt-multi-thread", "macros", "sync"] }
anyhow = "=1.0.104"
thiserror = "=1.0.69"
clap = { version = "=4.6.7", features = ["derive"] }
compact_str = { version = "=0.8.2", features = ["serde"] }
smallvec = { version = "=1.16.4", features = ["serde"] }
redis = { version = "=0.27.6", features = ["tokio-comp", "aio"] }
async-trait = "=0.1.92"
tracing = "=0.1.44"
kanau = "=0.6.0"
rkyv = "=0.8.18"
sqlx = { version = "=0.8.6", default-features = false, features = ["runtime-tokio", "postgres", "uuid", "chrono"] }
actix-web = { version = "=4.18.1", default-features = false, features = ["macros"] }
tantivy = { version = "=0.22.1", default-features = false }
meilisearch-sdk = "=0.30.0"
