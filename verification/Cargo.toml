[package]
name = "pad"
version = "0.1.0"
edition = "2021"
publish = false

[dependencies]
percent-encoding = "=2.3.2"
rand = "=0.9.5"
serde = { version = "=1.0.229", features = ["derive"] }
serde_json = "=1.0.154"
axum = { version = "=0.8.9", features = ["ws"] }
axum-extra = { version = "=0.10.3", features = ["cookie"] }
tokio = { version = "=1.54.1", features = ["fs", "sync", "macros", "rt-multi-thread"] }
yew = { version = "=0.21.0", features = ["csr"] }
web-sys = { version = "=0.3.107", features = ["Window", "Navigator", "Document", "Element", "HtmlSelectElement", "Storage"] }
wasm-bindgen-futures = "=0.4.80"
