[package]
name = "jump_list"
version = "0.1.0"
edition = "2021"
publish = false

[dependencies]
anyhow = "1"
smallvec = "1"
url = "2"
windows = { version = "0.61", features = ["Win32_Foundation", "Win32_Globalization", "Win32_System_Com", "Win32_System_Com_StructuredStorage", "Win32_System_Variant", "Win32_UI_Controls", "Win32_UI_Shell", "Win32_UI_Shell_Common", "Win32_UI_Shell_PropertiesSystem"] }
