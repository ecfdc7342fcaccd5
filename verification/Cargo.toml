[package]
name = "blogcore"
version = "0.1.0"
edition = "2021"
publish = false

[dependencies]
comrak = { version = "=0.56.0", default-features = false, features = ["syntect-fancy"] }
syntect = { version = "=5.3.0", default-features = false, features = ["default-fancy"] }
chrono = "=0.4.45"
serde = { version = "=1.0.229", features = ["derive"] }
yew = { version = "=0.23.0", features = ["csr", "ssr", "hydration"] }
yew-router = "=0.20.0"
wasm-bindgen = "=0.2.129"
web-sys = { version = "=0.3.106", features = ["Window", "Document", "Element", "HtmlInputElement"] }

[dev-dependencies]
serde_json = "=1.0.151"
roxmltree = "=0.21.1"
