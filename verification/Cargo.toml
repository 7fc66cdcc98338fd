[package]
name = "roon_api"
version = "0.2.0"
edition = "2021"
publish = false

[dependencies]
futures-util = { version = "0.3", features = ["sink"] }
get_if_addrs = "0.5"
log = "0.4"
serde = { version = "1.0", features = ["derive"] }
serde_json = "1.0"
tokio = { version = "1.24", features = ["macros", "net", "rt", "sync", "time"] }
tokio-tungstenite = "0.18"
tungstenite = "0.18"
typetag = "0.2"
url = "2.3"
uuid = { version = "1.2", features = ["v4"] }
