[package]
name = "websocket_lite"
version = "0.1.0"
edition = "2021"
publish = false

[dependencies]
base64 = "0.21"
bytes = "1"
futures-util = "0.3"
native-tls = "0.2"
rand = "0.8"
sha1 = "0.10"
tokio = { version = "1", features = ["net", "io-util", "rt"] }
tokio-native-tls = "0.3"
tokio-util = { version = "0.7", features = ["codec"] }
url = "2"
