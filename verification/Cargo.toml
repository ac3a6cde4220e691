[package]
name = "zonewm"
version = "0.1.0"
edition = "2021"
publish = false

[dependencies]
ctrlc = "3"
dirs = "5"
serde = { version = "1", features = ["derive"] }
thiserror = "1"
toml = "0.8"
tray-icon = "0.19"
windows-core = "0.58"
windows = { version = "0.58", features = ["Win32_Foundation", "Win32_Graphics_Gdi", "Win32_Graphics_Dwm", "Win32_UI_HiDpi", "Win32_UI_WindowsAndMessaging", "Win32_UI_Accessibility", "Win32_UI_Input_KeyboardAndMouse", "Win32_System_Threading", "Win32_System_Com", "Win32_System_LibraryLoader", "Win32_System_Console", "UI_ViewManagement"] }
