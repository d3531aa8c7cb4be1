[package]
name = "atomic_http"
version = "0.1.0"
edition = "2021"
publish = false

[dependencies]
http = "=1.5.0"
mime_guess = "=2.0.5"
dashmap = "=6.2.1"
tokio = { version = "=1.54.1", features = ["full"] }
bumpalo = "=3.20.3"
bumpalo-herd = "=0.1.3"
memmap2 = "=0.9.12"
serde = { version = "=1.0.229", features = ["derive"] }
serde_json = "=1.0.154"
async-trait = "=0.1.92"
urlencoding = "2"
dotenv = "0.15"
