[package]
name = "baegun_core"
version = "1.0.0"
edition = "2021"
publish = false

[dependencies]
base64 = "=0.22.1"
chrono = { version = "=0.4.45", default-features = false, features = ["clock", "std"] }
clap = { version = "=4.6.7", features = ["derive"] }
jpeg-decoder = { version = "=0.3.2", default-features = false }
png = "=0.17.16"
pulldown-cmark = { version = "=0.12.2", default-features = false, features = ["html"] }
quick-xml = { version = "0.38", features = ["encoding"] }
regex = "=1.13.1"
reqwest = { version = "=0.12.28", default-features = false, features = ["blocking", "multipart", "json", "rustls-tls"] }
same-file = "=1.0.6"
serde = { version = "=1.0.229", features = ["derive"] }
serde_json = "=1.0.154"
sha2 = "=0.10.9"
tempfile = "=3.27.0"
thiserror = "=2.0.21"
zip = { version = "=2.6.1", default-features = false, features = ["deflate"] }

[dev-dependencies]
crc32fast = "=1.5.4"
