[package]
name = "albion_market"
version = "0.1.0"
edition = "2021"
publish = false

[dependencies]
actix-cors = "0.7"
actix-web = "4"
futures = "0.3"
reqwest = { version = "0.12", default-features = false, features = ["json", "rustls-tls"] }
serde = { version = "1", features = ["derive"] }
serde_json = "1"
surrealdb = { version = "*", default-features = false, features = ["protocol-ws"] }
thiserror = "2"
tokio = { version = "1", features = ["time"] }
