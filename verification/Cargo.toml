[package]
name = "tiddlydesktop"
version = "0.1.0"
edition = "2021"
publish = false

[dependencies]
base64 = "=0.22.1"
chrono = "=0.4.45"
dirs = "=7.0.0"
dunce = "=1.0.5"
enigo = { version = "=0.6.1", default-features = false, features = ["x11rb"] }
jni = "=0.21.1"
md5 = "=0.7.0"
regex = "=1.13.1"
rquickjs = "=0.14.0"
serde = { version = "=1.0.229", features = ["derive"] }
serde_json = "=1.0.154"
tiny_http = "=0.12.0"
urlencoding = "=2.1.3"
wayland-client = "=0.31.15"
x11rb = "=0.13.2"
