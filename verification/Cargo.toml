[package]
name = "c509-cert"
version = "0.1.0"
edition = "2021"
publish = false

[dependencies]
minicbor = { version = "*", features = ["std"] }
num-bigint = "0.4"
time = { version = "0.3", features = ["parsing", "formatting"] }
hex = "0.4"
macaddr = "1"
ipnet = "2"
oid = "0.2"
serde = { version = "1", features = ["derive"] }
serde_json = "1"
x509-parser = "*"
