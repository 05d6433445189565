[package]
name = "zerosni"
version = "0.1.0"
edition = "2021"
publish = false

[dependencies]
anyhow = "=1.0.104"
arc-swap = "=1.9.3"
clap = { version = "=4.6.7", features = ["derive"] }
compact_str = { version = "=0.9.1", features = ["serde"] }
const-oid = { version = "=0.9.6", features = ["db"] }
der = { version = "=0.7.10", features = ["alloc", "oid", "std"] }
dns-parser = "=0.8.0"
libc = "=0.2.191"
moka = { version = "=0.12.16", features = ["future"] }
p256 = { version = "=0.13.2", features = ["ecdsa", "pkcs8"] }
rand = "=0.8.8"
rustls = "=0.23.46"
rustls-pemfile = "=2.2.0"
sec1 = { version = "=0.7.3", features = ["der", "pkcs8"] }
serde = { version = "=1.0.229", features = ["derive"] }
# Not called by name: p256 signs certificates only where its hash has an object identifier.
sha2 = { version = "=0.10.9", features = ["oid"] }
signal-hook = "=0.3.18"
socket2 = { version = "=0.6.5", features = ["all"] }
spki = { version = "=0.7.3", features = ["alloc"] }
struson = { version = "=0.7.2", features = ["serde"] }
tls-parser = "=0.12.2"
tokio = { version = "=1.54.1", features = ["full"] }
tokio-rustls = "=0.26.6"
url = "=2.5.8"
webpki-roots = "=1.0.10"
x509-cert = { version = "=0.2.5", features = ["builder", "hazmat"] }
