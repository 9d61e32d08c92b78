[package]
name = "keydeck"
version = "0.1.0"
edition = "2021"
publish = false

[dependencies]
serde = { version = "=1.0.229", features = ["derive"] }
serde_json = "=1.0.154"
subtle = "=2.6.1"
rand = "=0.10.3"
qrcode = { version = "=0.14.1", default-features = false, features = ["svg"] }
axum = { version = "=0.8.9", features = ["ws"] }
tokio = { version = "=1.54.1", features = ["full"] }
futures-util = "=0.3.34"
tower-http = { version = "=0.7.1", features = ["fs"] }
tracing = "=0.1.44"
tracing-subscriber = { version = "=0.3.23", features = ["env-filter"] }
local-ip-address = "=0.6.13"
windows = { version = "=0.58.0", features = ["Win32_UI_Input_KeyboardAndMouse"] }
