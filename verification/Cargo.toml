[package]
name = "autotype"
version = "0.1.0"
edition = "2021"
publish = false

[dependencies]
hound = "=3.5.1"
serde = { version = "=1.0.229", features = ["derive"] }
serde_json = "=1.0.154"
chrono = "=0.4.45"
dirs = "=5.0.1"
cpal = "=0.15.3"
rdev = "=0.5.3"
windows = { version = "=0.54.0", features = ["Win32_Foundation", "Win32_UI_Input_KeyboardAndMouse"] }
