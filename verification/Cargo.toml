[package]
name = "apt_fetcher"
version = "0.1.0"
edition = "2021"
publish = false

[dependencies]
anyhow = "1"
apt-release-file = "0.1.1"
async-fetcher = "=0.4.1"
async-std = "1"
deb-architectures = "0.1.0"
failure = "0.1"
flate2 = "1.0"
futures = "0.3"
gpgrv = "=0.1.1"
libflate = "0.1.27"
log = "0.4"
lz4 = "1.24"
md-5 = "0.8.0"
os_pipe = "0.9"
pidfd = "0.2"
reqwest = { version = "0.9.24", default-features = false, features = ["rustls-tls"] }
sha-1 = "0.8"
sha2 = "0.8.2"
surf = "1.0.3"
thiserror = "1"
tokio = { version = "1", features = ["rt", "sync"] }
xz2 = "0.1.7"
