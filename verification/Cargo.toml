[package]
name = "mumble_client"
version = "0.1.0"
edition = "2021"
publish = false

[dependencies]
byteorder = "1"
protobuf = "3"
tokio = { version = "1", features = ["full"] }
async-trait = "0.1"
argparse = "0.2"
num = "0.4"
cpal = "0.15"
tokio-native-tls = "0.3"
