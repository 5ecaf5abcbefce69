[package]
name = "qvm"
version = "0.1.0"
edition = "2021"
publish = false

[dependencies]
num-complex = { version = "=0.4.6", features = ["serde"] }
serde = { version = "=1.0.229", features = ["derive"] }
serde_json = "=1.0.154"
stdweb = "0.4"
yew = "0.4"
