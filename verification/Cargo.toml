[package]
name = "xbee_uart"
version = "0.1.0"
edition = "2021"
publish = false

[dependencies]
tinyvec = "1"
serde = { version = "1", features = ["derive"] }
embedded-hal = "0.2"
nb = "1"

[dev-dependencies]
nom = "7"
