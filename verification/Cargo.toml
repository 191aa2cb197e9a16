[package]
name = "namplay"
version = "0.1.0"
edition = "2021"
publish = false

[dependencies]
ashpd = "0.10"
biquad = "0.4"
env_logger = "0.11"
fft-convolver = "*"
futures-channel = "0.3"
futures-util = "0.3"
gio = "0.20"
glib = "0.20"
gtk4 = { version = "0.9", features = ["v4_10"] }
hound = "3"
jack = "0.13"
ksni = { version = "0.3", features = ["blocking"] }
libadwaita = { version = "0.7", features = ["v1_4"] }
log = "0.4"
nam-rs = "*"
pitch-detection = "0.3"
serde = { version = "1", features = ["derive"] }
serde_yaml = "0.9"
