[package]
name = "web-rdp"
version = "0.1.0"
edition = "2021"
publish = false

[dependencies]
anyhow = "1"
axum = { version = "0.8", default-features = false, features = ["http1", "tokio", "ws"] }
base64 = "=0.22.1"
bytes = "=1.12.1"
clap = { version = "4", default-features = false, features = ["std", "derive", "help", "usage", "env"] }
futures-channel = { version = "0.3", features = ["sink"] }
futures-util = { version = "0.3", features = ["sink"] }
gloo-net = { version = "0.6", default-features = false, features = ["websocket"] }
gloo-timers = { version = "0.3", features = ["futures"] }
ironrdp = { version = "=0.17.0", features = ["connector", "session", "graphics", "input", "cliprdr", "svc", "dvc", "rdpsnd", "displaycontrol"] }
ironrdp-cliprdr-format = "=0.2.0"
ironrdp-core = "=0.2.1"
ironrdp-egfx = "=0.3.0"
ironrdp-graphics = "0.11"
ironrdp-pdu = "=0.9.0"
js-sys = "0.3"
mime_guess = "=2.0.5"
native-tls = "0.2"
rust-embed = "8"
serde_json = "=1.0.154"
sspi = "=0.21.3"
tokio = { version = "1", features = ["net", "io-util", "macros", "rt-multi-thread", "sync"] }
tokio-native-tls = "0.3"
tower-http = { version = "0.6", features = ["fs"] }
tracing = "0.1"
tracing-subscriber = { version = "0.3", default-features = false, features = ["fmt", "env-filter", "std"] }
wasm-bindgen = "0.2"
wasm-bindgen-futures = "0.4"
web-sys = { version = "0.3", features = ["CanvasRenderingContext2d", "CssStyleDeclaration", "Document", "Element", "HtmlCanvasElement", "HtmlElement", "ImageData", "Window"] }
x509-cert = "=0.2.5"
