[package]
name = "soundsync"
version = "0.1.0"
edition = "2021"
publish = false

[dependencies]
serde = { version = "1", features = ["derive"] }
serde_json = "1"
prost = "0.13"
tokio = { version = "1", features = ["full"] }
tokio-rustls = { version = "0.26", default-features = false, features = ["ring", "tls12"] }
rustls = { version = "0.23", default-features = false, features = ["ring", "std", "tls12"] }
ureq = { version = "2", default-features = false, features = ["tls"] }
uuid = { version = "1", features = ["v4"] }
rustfft = "6"
futures = "0.3"
opus = "0.3"
bluer = { version = "0.17", features = ["bluetoothd"] }
dbus = { version = "0.9", features = ["vendored"] }
dbus-tokio = "0.7"
