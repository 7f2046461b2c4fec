[package]
name = "shader_patcher"
version = "0.1.0"
edition = "2021"
publish = false

[dependencies]
aho-corasick = "1"
bytemuck = "1"
anyhow = "1"
thiserror = "2"
clap = { version = "4", features = ["derive"] }
tracing = "0.1"
tracing-subscriber = { version = "0.3", features = ["env-filter"] }
winsafe = { version = "*", features = ["kernel", "advapi"] }
windows = { version = "*", features = ["Win32_Foundation", "Win32_System_Memory", "Win32_System_Console", "Win32_UI_WindowsAndMessaging"] }
ntapi = "*"
trayicon = "*"
