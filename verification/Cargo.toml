[package]
name = "catchword"
version = "0.1.0"
edition = "2021"
publish = false

[dependencies]
chrono = "0.4"
serde = { version = "1", features = ["derive"] }
serde_json = "1"
reqwest = { version = "0.12", default-features = false, features = ["json", "rustls-tls"] }
rdev = "0.5"
windows = { version = "0.61", features = ["Win32_Foundation", "Win32_System_Com", "Win32_UI_Accessibility", "Win32_Graphics_Gdi", "Win32_System_WinRT", "Media_Ocr", "Graphics_Imaging", "Globalization", "Foundation", "Foundation_Collections"] }
