[package]
name = "rustsmb"
version = "0.1.0"
edition = "2021"
publish = false

[dependencies]
ms-ndr = "*"
win-sd = "*"
sha2 = "0.10"
hmac = "0.12"
aes = "0.8"
cmac = "0.7"
aes-gcm = "0.10"
ccm = "0.5"
async-trait = "0.1"
clap = { version = "4", features = ["derive"] }
if-addrs = "*"
inotify = "*"
serde = { version = "1", features = ["derive"] }
serde_json = "1"
thiserror = "*"
tokio = { version = "1", features = ["full"] }
tracing = "0.1"
tracing-subscriber = { version = "0.3", features = ["env-filter"] }
