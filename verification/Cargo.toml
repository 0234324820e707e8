[package]
name = "celld_store"
version = "0.1.0"
edition = "2021"
publish = false

[dependencies]
anyhow = "=1.0.104"
async-trait = "=0.1.92"
bytes = "=1.12.1"
chrono = { version = "=0.4.45", default-features = false, features = ["std"] }
futures-util = "=0.3.34"
libc = "=0.2.191"
object_store = { version = "=0.12.5", features = ["azure", "integration"] }
rand = "=0.8.8"
rusqlite = { version = "=0.39.0", features = ["bundled"] }
serde = { version = "=1.0.229", features = ["derive"] }
serde_json = "=1.0.154"
sha2 = "=0.10.9"
tempfile = "=3.27.0"
tikv-jemalloc-ctl = { version = "=0.6.1", features = ["stats"] }
tokio = { version = "=1.54.1", features = ["rt-multi-thread", "macros", "sync", "time"] }
tracing = "=0.1.44"
