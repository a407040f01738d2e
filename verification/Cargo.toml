[package]
name = "esp-wifi-ap"
version = "0.1.0"
edition = "2021"
publish = false

[dependencies]
anyhow = "=1.0.104"
embedded-svc = "=0.29.0"
esp-idf-hal = { version = "=0.47.0", features = ["rmt-legacy"] }
esp-idf-svc = "=0.53.0"
esp-idf-sys = "=0.38.1"
heapless = "=0.9.3"
log = "=0.4.34"
names = { version = "=0.14.0", default-features = false }
