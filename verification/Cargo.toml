[package]
name = "latency_probe"
version = "0.1.0"
edition = "2021"
publish = false

[dependencies]
anyhow = "*"
cities = "*"
csv = "*"
dns-lookup = "*"
dotenv = "*"
futures = "*"
geoutils = "*"
ipinfo = "*"
plotpy = "*"
rand = "*"
rayon = "*"
serde = { version = "*", features = ["derive"] }
serde_json = "*"
surge-ping = "*"
tokio = { version = "*", features = ["macros", "rt-multi-thread", "time"] }
