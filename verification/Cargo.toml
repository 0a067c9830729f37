[package]
name = "shaman_core"
version = "0.1.0"
edition = "2021"
publish = false

[dependencies]
getrandom = "=0.3.4"
serde = { version = "=1.0.229", features = ["derive"] }
serde_json = "=1.0.154"
anyhow = "=1.0.104"
thiserror = "=2.0.21"
tracing = "=0.1.44"
tracing-subscriber = { version = "=0.3.23", features = ["env-filter"] }
portable-pty = "=0.9.0"
russh = { version = "=0.65.1", default-features = false, features = ["ring", "rsa"] }
tokio = { version = "=1.54.1", features = ["rt", "net", "time", "sync", "macros"] }
windows-registry = "=0.100.0"
windows = { version = "=0.62.2", features = ["Win32_Foundation", "Win32_Security", "Win32_Security_Cryptography", "Win32_System_Threading", "Win32_System_JobObjects", "Win32_System_Pipes", "Win32_System_Memory", "Win32_Storage_FileSystem", "Win32_UI_WindowsAndMessaging"] }
