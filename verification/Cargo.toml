[package]
name = "cetus_indexer"
version = "0.1.0"
edition = "2021"
publish = false

[dependencies]
actix-cors = "0.7"
actix-web = { version = "4", default-features = false, features = ["macros"] }
anyhow = "1"
async-trait = "0.1"
diesel = { version = "2.2", default-features = false, features = ["postgres_backend"] }
diesel-async = { version = "0.5", features = ["postgres", "bb8"] }
dotenvy = "0.15"
env_logger = { version = "0.11", default-features = false }
futures-util = "0.3"
hex = "=0.4.3"
num_cpus = "1"
prometheus = { version = "0.13", default-features = false }
rustls = { version = "0.23", default-features = false, features = ["ring", "std"] }
serde = { version = "1", features = ["derive"] }
tokio = { version = "1", features = ["macros", "rt-multi-thread", "sync"] }
tracing = "0.1"

[dev-dependencies]
bcs = "=0.1.6"
