[package]
name = "worker"
version = "0.1.0"
edition = "2021"
publish = false

[dependencies]
base64 = "=0.13.1"
biscuit = "0.4"
futures = "=0.3.34"
regex = "=1.13.1"
serde_json = "=1.0.154"
sqlparser = "=0.5.1"
tonic = "=0.14.6"
