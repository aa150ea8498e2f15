[package]
name = "windows-side-dock"
version = "0.1.0"
edition = "2021"
publish = false

[dependencies]
eframe = { version = "0.33", default-features = false, features = ["default_fonts", "glow", "x11", "wayland"] }
windows-sys = { version = "0.60", features = ["Win32_Foundation", "Win32_UI_WindowsAndMessaging", "Win32_UI_Shell", "Win32_System_Threading", "Win32_Graphics_Gdi", "Win32_System_SystemInformation", "Win32_System_Registry", "Win32_UI_Controls_Dialogs", "Win32_Storage_FileSystem", "Win32_UI_Accessibility"] }
tray-icon = "*"
