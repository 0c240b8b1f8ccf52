[package]
name = "zero_copy_transport"
version = "0.1.0"
edition = "2021"
publish = false

[dependencies]
iceoryx2-bb-container = "0.5"
iceoryx2-bb-elementary = "0.5"
iceoryx2-bb-lock-free = "0.5"
iceoryx2-bb-log = "0.5"
iceoryx2-bb-posix = "0.5"
iceoryx2-bb-system-types = "0.5"
iceoryx2-pal-concurrency-sync = "0.5"
libc = "0.2"
serde = { version = "1", features = ["derive"] }
toml = "0.8"
