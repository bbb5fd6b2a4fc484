[package]
name = "autoenc"
version = "0.1.0"
edition = "2021"
publish = false

[dependencies]
aes = "*"
cbc = { version = "*", features = ["alloc"] }
cipher = { version = "*", features = ["alloc", "block-padding"] }
sevenz-rust2 = "*"
pelite = "*"
serde = { version = "1", features = ["derive"] }
postcard = { version = "1", features = ["use-std"] }
toml = "*"
log = "0.4"
anyhow = "1"
thiserror = "*"
widestring = "1"
windows-sys = { version = "*", features = ["Win32_Foundation", "Win32_System_LibraryLoader", "Win32_System_SystemServices", "Win32_UI_WindowsAndMessaging", "Win32_Globalization", "Win32_Storage_FileSystem", "Win32_System_Memory", "Win32_System_Environment", "Win32_System_SystemInformation"] }
