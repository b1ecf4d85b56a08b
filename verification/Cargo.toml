[package]
name = "hudson-core"
version = "0.1.0"
edition = "2021"
publish = false

[dependencies]
serde = { version = "1", features = ["derive"] }
serde_json = "1"
sha2 = "0.10"
getrandom = "0.3"
uuid = { version = "1", features = ["v4", "serde"] }
subtle = "2"
serde_yaml_ng = "*"
jsonschema = { version = "*", default-features = false }
thiserror = "2"
clap = { version = "4", features = ["derive"] }
reqwest = { version = "0.12", default-features = false, features = ["blocking", "json", "rustls-tls"] }
