[package]
name = "caibot"
version = "0.1.0"
edition = "2021"
publish = false

[dependencies]
md5 = "=0.7.0"
rand = "0.8"
parking_lot = "0.12"
url = "2"
serde = { version = "1", features = ["derive"] }
serde_json = "1"
futures-util = "0.3"
tokio = { version = "1", features = ["macros", "rt-multi-thread", "time"] }
reqwest = { version = "0.11", default-features = false, features = ["rustls-tls"] }
mongodb = "=2.8.2"
teloxide = { version = "=0.7.3", default-features = false, features = ["macros", "rustls", "dispatching2", "auto-send", "ctrlc_handler"] }
takecell = "=0.1.1"
tokio-util = { version = "0.6", features = ["codec"] }
