[package]
name = "glance"
version = "0.1.0"
edition = "2021"
publish = false

[dependencies]
sysinfo = { version = "0.40", default-features = false, features = ["system", "network"] }
serde = { version = "1", features = ["derive"] }
tauri = { version = "2", default-features = false, features = ["wry", "tray-icon"] }
windows-sys = { version = "0.61", features = ["Win32_Foundation", "Win32_Globalization", "Win32_UI_WindowsAndMessaging"] }
core-foundation = "0.10"
core-graphics = "0.25"
core-text = "22"
