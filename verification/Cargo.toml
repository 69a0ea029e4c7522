[package]
name = "downloader"
version = "0.1.0"
edition = "2021"
publish = false

[dependencies]
bzip2 = "=0.6.1"
flate2 = "=1.1.10"
futures = "=0.3.34"
indicatif = "=0.17.11"
liblzma = "=0.4.9"
md-5 = "0.11"
once_cell = "=1.21.4"
reqwest = { version = "=0.12.28", default-features = false, features = ["stream"] }
reqwest-middleware = "=0.4.2"
reqwest-retry = "=0.7.0"
sha1 = "0.11"
sha2 = "0.11"
tar = "=0.4.46"
thiserror = "=1.0.69"
tokio = "=1.54.1"
zip = { version = "=9.1.0", default-features = false, features = ["deflate"] }
zstd = "=0.13.3"
