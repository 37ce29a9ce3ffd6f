[package]
name = "ebpf_firewall"
version = "0.1.0"
edition = "2021"
publish = false

[dependencies]
regex = "=1.13.1"
serde = { version = "=1.0.229", features = ["derive"] }
actix-web = "=4.18.1"
actix-cors = "=0.7.2"
sqlx = { version = "=0.7.4", default-features = false, features = ["runtime-tokio", "sqlite", "macros"] }
tokio = { version = "=1.54.1", features = ["full"] }
sysinfo = "=0.30.13"
dotenvy = "=0.15.7"
env_logger = "=0.11.11"
log = "=0.4.35"
anyhow = "=1.0.104"
clap = { version = "=4.6.7", features = ["derive"] }
aya = "=0.13.1"
aya-log = "=0.2.1"
libc = "=0.2.191"

[dev-dependencies]
network-types = "=0.2.0"
