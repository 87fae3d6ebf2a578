[package]
name = "lib3mf_core"
version = "0.1.0"
edition = "2021"
publish = false

[dependencies]
quick-xml = "=0.42.0"
zip = { version = "=9.2.2", default-features = false, features = ["deflate"] }
glam = "=0.34.2"
lexical-core = "=1.0.6"
serde = { version = "=1.0.229", features = ["derive"] }
serde_json = "=1.0.154"
uuid = "=1.29.0"
thiserror = "=2.0.21"
base64 = "0.22"
sha1 = { version = "0.10", features = ["oid"] }
sha2 = { version = "0.10", features = ["oid"] }
rsa = "=0.9.10"
aes-gcm = "0.10"
rand = "0.8"
x509-parser = "=0.18.1"
rayon = "=1.12.0"
