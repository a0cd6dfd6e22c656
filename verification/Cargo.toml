[package]
name = "autolsm"
version = "0.1.0"
edition = "2021"
publish = false

[dependencies]
anyhow = "=1.0.104"
async-trait = "=0.1.92"
aya = "=0.14.0"
aya-ebpf = "=0.1.1"
clap = { version = "=4.6.7", features = ["derive", "env"] }
fastrand = "=2.5.0"
lru = "=0.19.0"
regex = "=1.13.1"
reqwest = { version = "=0.13.5", default-features = false, features = ["json"] }
seahash = "=4.1.0"
serde = { version = "1", features = ["derive"] }
serde_json = "=1.0.154"
thiserror = "=2.0.21"
tokio = { version = "=1.54.1", features = ["full"] }
tracing = "=0.1.44"
tracing-subscriber = { version = "=0.3.23", features = ["env-filter"] }
