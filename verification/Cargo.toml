[package]
name = "geodukt"
version = "0.1.0"
edition = "2021"
publish = false

[dependencies]
petgraph = "0.6"
sha2 = "0.10"
serde = { version = "1", features = ["derive"] }
serde_json = "1"
toml = "0.8"
thiserror = "1"
geo = "0.29"
geojson = "0.24"
csv = "1"
rusqlite = { version = "0.31", features = ["bundled"] }
shapefile = "0.6"
proj = "0.27"
rayon = "1"
libloading = "0.8"
object_store = { version = "0.11", features = ["aws", "gcp", "azure"] }
bytes = "1"
clap = { version = "4", features = ["derive"] }
tokio = { version = "1", features = ["full"] }
axum = "0.8"
tower-http = { version = "0.6", features = ["cors"] }

[dev-dependencies]
tempfile = "3"
