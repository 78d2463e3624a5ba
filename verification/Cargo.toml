[package]
name = "pgr"
version = "0.1.0"
edition = "2021"
publish = false

[dependencies]
ahash = "=0.8.12"
anyhow = "=1.0.104"
aya = "=0.13.1"
aya-ebpf = "=0.1.1"
aya-log = "=0.2.1"
aya-log-ebpf = "=0.1.0"
bytes = "=1.12.1"
bytesize = "=2.7.0"
clap = { version = "=4.6.7", features = ["derive"] }
crossbeam-channel = "=0.5.17"
ctrlc = "=3.5.2"
etherparse = "=0.15.0"
futures = "=0.3.34"
humantime = "=2.4.0"
io-uring = "=0.7.15"
libc = "=0.2.191"
md5 = "=0.8.1"
pcap-parser = "=0.17.0"
pgwire = { version = "=0.42.1", default-features = false, features = ["client-api-ring", "server-api-ring"] }
pin-project = "=1.1.13"
quanta = "=0.12.6"
rustix = { version = "=1.1.6", features = ["time"] }
socket2 = { version = "=0.6.5", features = ["all"] }
time = { version = "=0.3.55", features = ["macros", "local-offset", "formatting"] }
tokio = { version = "=1.54.1", features = ["full"] }
tokio-util = { version = "=0.7.20", features = ["codec"] }
tracing = "=0.1.44"
tracing-subscriber = { version = "=0.3.23", features = ["time", "local-time"] }
zstd = { version = "=0.13.4", features = ["zstdmt"] }
