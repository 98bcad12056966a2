[package]
name = "harvest_ui"
version = "0.1.0"
edition = "2021"
publish = false

[dependencies]
bs58 = "=0.5.1"
chrono = "=0.4.45"
dioxus = { version = "=0.7.10", default-features = false, features = ["macro", "html", "signals", "hooks", "logger", "launch", "web"] }
ed25519-dalek = "=2.2.0"
freenet-migrate = "=0.8.0"
freenet-stdlib = "=0.12.1"
futures = "=0.3.34"
getrandom = "=0.2.17"
ghostkey-common = "=0.4.0"
gloo-timers = { version = "=0.3.0", features = ["futures"] }
js-sys = "0.3"
serde = { version = "=1.0.229", features = ["derive"] }
wasm-bindgen = "0.2"
wasm-bindgen-futures = "0.4"
web-sys = { version = "0.3", features = ["BinaryType", "Document", "Location", "MessageEvent", "Response", "WebSocket", "Window"] }
