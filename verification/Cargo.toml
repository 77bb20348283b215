[package]
name = "iiif_core"
version = "0.1.0"
edition = "2021"
publish = false

[dependencies]
jpeg-encoder = "=0.7.1"
png = "=0.18.1"
fast_image_resize = "=6.1.0"
bytes = "=1.12.1"
http-body-util = "=0.1.5"
hyper = { version = "=1.12.0", features = ["server", "http1"] }
hyper-util = { version = "=0.1.21", features = ["tokio"] }
tokio = { version = "=1.54.1", features = ["rt-multi-thread", "net", "sync", "macros"] }
serde = { version = "=1.0.229", features = ["derive"] }
serde_json = "=1.0.154"
tracing = "=0.1.44"
tracing-subscriber = { version = "=0.3.23", features = ["env-filter", "fmt"] }
mimalloc = "=0.1.52"
