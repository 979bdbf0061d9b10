[package]
name = "templify"
version = "0.1.0"
edition = "2021"
publish = false

[dependencies]
base64 = "=0.22.1"
md5 = "=0.8.1"
pulldown-cmark = { version = "=0.9.6", default-features = false }
uuid = { version = "=1.29.0", features = ["v4"] }
num-format = "=0.4.4"
mime_guess = "=2.0.5"
rayon = "=1.12.0"
serde = { version = "=1.0.229", features = ["derive"] }
serde_json = "=1.0.154"
regex = "1"
actix-web = { version = "4", default-features = false, features = ["macros"] }
actix-multipart = { version = "0.7", default-features = false }
actix-files = "0.6"
tokio = { version = "1", features = ["rt-multi-thread", "macros", "sync", "time"] }
rusqlite = { version = "0.32", features = ["bundled"] }
genpdf = { version = "0.2", features = ["images"] }
image = "0.23"
png = "0.17"
tempfile = "3"
include_dir = "0.7"
env_logger = "0.11"
log = "0.4"
webbrowser = "1"
futures-util = "0.3"
