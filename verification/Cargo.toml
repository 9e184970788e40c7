[package]
name = "sl_studio"
version = "0.3.2"
edition = "2021"
publish = false

[dependencies]
sha2 = "0.10"
hex = "0.4"
rusqlite = { version = "*", features = ["bundled"] }
serde = { version = "1", features = ["derive"] }
serde_json = "1"
chrono = "0.4"
regex = "1"
anyhow = "1"
walkdir = "2"
zip = { version = "*", default-features = false, features = ["deflate"] }
dirs = "*"
num_cpus = "1"
sysinfo = "*"
rayon = "1"
tracing = "0.1"
printpdf = "0.7"
reqwest = { version = "*", default-features = false, features = ["json"] }
tokio = { version = "1", features = ["rt"] }

[dev-dependencies]
tempfile = "3"
