[package]
name = "via_tool"
version = "0.1.0"
edition = "2021"
publish = false

[dependencies]
regex = "1"
tokio = { version = "1", features = ["full"] }
async-compression = { version = "0.4", features = ["tokio", "gzip"] }
csv-async = { version = "1", features = ["tokio"] }
futures = "0.3"
serde = { version = "1", features = ["derive"] }
serde_json = "1"
color-eyre = "0.6"
dotenvy = "0.15"
structopt = "0.3"
strum = { version = "0.26", features = ["derive"] }
tracing = "0.1"
tracing-subscriber = "0.3"
image = { version = "0.24", default-features = false, features = ["png"] }
indicatif = "0.17"
nalgebra = "0.32"
palette = "0.7"
