[package]
name = "brz_http_server"
version = "0.1.0"
edition = "2021"
publish = false

[dependencies]
brz-ds = "*"
brz-io = "*"
brz-json = "*"
brz-metrics = "*"
bytes = "1"
form_urlencoded = "1"
futures-util = "0.3"
http = "1"
httparse = "1"
itoa = "1"
multer = "3"
percent-encoding = "2"
proc-macro2 = "1"
quote = "1"
serde = { version = "1", features = ["derive"] }
serde_html_form = "*"
syn = { version = "2", features = ["full", "visit-mut", "extra-traits"] }
thiserror = "2"
tokio = { version = "1", features = ["net", "rt", "sync", "time", "io-util", "macros"] }
tracing = "0.1"
