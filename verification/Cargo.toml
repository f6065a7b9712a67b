[package]
name = "abra"
version = "0.1.0"
edition = "2021"
publish = false

[dependencies]
aes-gcm = { version = "0.10", default-features = false, features = ["aes", "alloc"] }
async-trait = "0.1"
blake3 = "1"
clap = { version = "4", default-features = false, features = ["std", "derive", "help", "usage", "error-context"] }
data-encoding = "2"
ed25519-dalek = { version = "2", features = ["rand_core"] }
fs2 = "0.4"
hex = "0.4"
iroh = "*"
libc = "0.2"
rand = "0.8"
serde = { version = "1", features = ["derive"] }
serde_json = "1"
sha2 = "0.10"
tempfile = "3"
thiserror = "2"
tokio = { version = "1", features = ["fs", "io-std", "io-util", "macros", "net", "process", "rt-multi-thread", "signal", "sync", "time"] }
x25519-dalek = { version = "2", features = ["static_secrets"] }
