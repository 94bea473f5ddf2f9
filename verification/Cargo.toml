[package]
name = "tools_server"
version = "0.1.0"
edition = "2021"
publish = false

[dependencies]
async-process = "=1.8.1"
base64 = "=0.13.1"
bstr = "=1.13.1"
bytes = "=1.12.1"
futures = "=0.3.34"
hyper = "=0.14.32"
rlua = "=0.19.8"
shell-words = "=1.1.1"
tokio = { version = "=1.54.1", features = ["full"] }
warp = "=0.3.7"

[dev-dependencies]
regex = "=1.13.1"
