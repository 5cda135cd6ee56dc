[package]
name = "nivasa_http"
version = "0.1.0"
edition = "2021"
publish = false

[dependencies]
http = "=1.5.0"
multer = "=3.1.0"
url = "=2.5.8"
uuid = { version = "=1.29.0", features = ["v4"] }
serde = { version = "=1.0.229", features = ["derive"] }
serde_json = "=1.0.154"
tracing = "=0.1.44"
tracing-subscriber = { version = "=0.3.23", features = ["env-filter", "json"] }
flate2 = "=1.1.10"
brotli = "=9.1.1"
bytes = "=1.12.1"
serde_path_to_error = "0.1"
async-trait = "0.1"
futures-util = "0.3"
tokio = { version = "1", features = ["rt", "rt-multi-thread", "net", "macros", "sync", "time"] }
hyper = { version = "1", features = ["server", "http1", "http2"] }
hyper-util = { version = "0.1", features = ["tokio", "server-auto", "http1", "http2"] }
http-body-util = "0.1"
tower = "0.5"
