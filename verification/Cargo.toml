[package]
name = "frnsc_triage"
version = "0.1.0"
edition = "2021"
publish = false

[dependencies]
regex = "1"
forensic-rs = "*"
frnsc-liveregistry-rs = "*"
zip = { version = "0.6", default-features = false, features = ["deflate"] }
windows = { version = "0.52", features = ["Win32_Foundation", "Win32_Security", "Win32_Storage_FileSystem", "Win32_System_IO", "Win32_System_Ioctl"] }
