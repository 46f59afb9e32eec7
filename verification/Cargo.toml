[package]
name = "cropduster"
version = "0.1.0"
edition = "2021"
publish = false

[dependencies]
sha2 = { version = "0.10", default-features = false }
base64 = "0.22"
heapless = "0.8"
serde = { version = "1", default-features = false, features = ["derive"] }
anyhow = "1"
clap = { version = "4", features = ["derive"] }
xshell = "0.2"
ureq = { version = "2", default-features = false }
which = "*"
ekv = "*"
picoserve = { version = "*", features = ["embassy", "json"] }
embassy-sync = "*"
embassy-time = "*"
embassy-executor = "*"
embassy-rp = "*"
embassy-net = "*"
embassy-net-wiznet = "*"
embassy-boot-rp = "*"
embassy-embedded-hal = "*"
embedded-hal-bus = "*"
embedded-io-async = "*"
embedded-storage-async = "*"
cortex-m = "0.7"
static_cell = "*"
portable-atomic = "1"
defmt = "*"
defmt-rtt = "*"
panic-reset = "*"
