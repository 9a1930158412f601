[package]
name = "liara_core"
version = "0.1.0"
edition = "2021"
publish = false

[dependencies]
serde = { version = "=1.0.229", features = ["derive"] }
serde_json = "=1.0.154"
base64 = "=0.22.1"
aes-gcm = "=0.10.3"
rand = "=0.8.8"
anyhow = "=1.0.104"
chrono = "=0.4.45"
rusqlite = { version = "=0.41.1", features = ["bundled"] }
ring = "=0.17.14"
mailparse = "=0.18.0"
pdf-extract = "=0.12.1"
imap = { version = "2.4", default-features = false }
rustls = { version = "0.23", default-features = false, features = ["ring", "std", "tls12"] }
webpki-roots = "0.26"
lettre = { version = "0.11", default-features = false, features = ["smtp-transport", "builder", "rustls-tls"] }
