[package]
name = "serdir"
version = "0.1.0"
edition = "2021"
publish = false

[dependencies]
brotli = "*"
bytes = "1"
fixed-cache = "*"
futures-core = "0.3"
futures-util = "0.3"
http = "1"
http-body = "1"
http-body-util = "0.1"
httpdate = "1"
hyper = { version = "1", features = ["server", "http1"] }
log = "0.4"
metrics = "*"
pin-project-lite = "0.2"
rapidhash = "*"
sieve-cache = { version = "*", features = ["sync", "sharded", "weighted"] }
sync_wrapper = "1"
tempfile = "3"
tokio = { version = "1", features = ["rt-multi-thread"] }
tower = "0.5"
