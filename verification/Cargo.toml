[package]
name = "plc"
version = "0.1.0"
edition = "2021"
publish = false

[dependencies]
anyhow = "1"
atrium-api = "0.24"
atrium-crypto = "0.1"
atrium-xrpc = "0.11"
atrium-xrpc-client = { version = "0.5", default-features = false, features = ["reqwest"] }
axum = "0.7"
base32 = "0.5"
base64ct = { version = "1", features = ["alloc"] }
chrono = "0.4"
cid = "0.11"
clap = { version = "4", features = ["derive"] }
diff-struct = "0.5"
hickory-resolver = "0.24"
reqwest = { version = "0.12", default-features = false, features = ["json", "rustls-tls"] }
serde = { version = "1", features = ["derive"] }
serde_json = "1"
serde-jsonlines = "*"
sha2 = "0.10"
tokio = { version = "1", features = ["macros", "rt-multi-thread", "signal", "time", "net", "fs", "sync"] }
tracing = "0.1"
tracing-subscriber = "0.3"
xdg = "2"
zeroize = { version = "1", features = ["derive"] }

[dev-dependencies]
ipld-core = "0.4"
rand_core = { version = "0.6", features = ["getrandom"] }
serde_ipld_dagcbor = "0.6"
