[package]
name = "llm_firewall"
version = "0.1.0"
edition = "2021"
publish = false

[dependencies]
regex = "1"
aho-corasick = "1"
sha2 = "0.10"
hex = "0.4"
url = "2"
dashmap = "6"
governor = "0.6"
actix-web = { version = "4", default-features = false, features = ["macros"] }
serde = { version = "1", features = ["derive"] }
serde_json = "1"
serde_yaml = "0.9"
reqwest = { version = "0.12", default-features = false, features = ["json", "stream", "rustls-tls"] }
uuid = { version = "1", features = ["v4"] }
tracing = "0.1"
tracing-subscriber = { version = "0.3", features = ["json", "env-filter"] }
anyhow = "1"
thiserror = "1"
bytes = "1"
futures-util = "0.3"
