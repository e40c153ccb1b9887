[package]
name = "match_display"
version = "0.1.0"
edition = "2021"
publish = false

[dependencies]
cyw43 = { version = "=0.7.0", features = ["defmt"] }
cyw43-pio = { version = "=0.10.0", features = ["defmt"] }
cortex-m-rt = "=0.7.7"
defmt = "=1.2.0"
defmt-rtt = "=1.3.1"
der = "=0.8.0-rc.10"
embassy-embedded-hal = "=0.6.0"
embassy-executor = { version = "=0.10.0", features = ["executor-thread", "platform-spin"] }
embassy-net = { version = "=0.9.1", features = ["defmt", "dhcpv4", "dns", "medium-ethernet", "proto-ipv4", "tcp", "udp"] }
embassy-rp = { version = "=0.10.0", features = ["critical-section-impl", "defmt", "rp2040", "time-driver"] }
embassy-time = "=0.5.1"
embedded-graphics = "=0.8.2"
embedded-hal = "=1.0.0"
embedded-hal-bus = "=0.3.0"
embedded-sdmmc = { version = "=0.7.0", default-features = false }
heapless = { version = "=0.8.0", features = ["serde"] }
mipidsi = "=0.9.0"
panic-probe = { version = "=1.0.0", features = ["print-defmt"] }
reqwless = { version = "=0.14.0", features = ["defmt"] }
serde = { version = "=1.0.229", default-features = false, features = ["derive"] }
serde-json-core = "=0.7.0"
static_cell = "=2.1.1"
