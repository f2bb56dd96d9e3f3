[package]
name = "might"
version = "0.1.0"
edition = "2021"
publish = false

[dependencies]
ansi_term = "=0.12.1"
json_to_table = "=0.6.0"
lru = "=0.12.5"
minreq = "=2.14.1"
rayon = "=1.12.0"
reqwest = { version = "=0.11.27", default-features = false, features = ["blocking", "json"] }
serde_json = "=1.0.154"
tabled = "=0.12.2"
