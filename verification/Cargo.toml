[package]
name = "yomag_audio"
version = "0.1.0"
edition = "2021"
publish = false

[dependencies]
arc-swap = "1"
cpal = "0.15"
hound = "3"
parking_lot = "0.12"
ringbuf = "0.4"
serde = { version = "1", features = ["derive"] }
serde_json = "1"
tracing = "0.1"
windows = { version = "0.58", features = ["Win32_Foundation", "Win32_Media", "Win32_Media_Audio", "Win32_Media_Audio_Endpoints", "Win32_System_Com", "Win32_System_Com_StructuredStorage", "Win32_System_Threading", "Win32_Devices_FunctionDiscovery", "Win32_Devices_Enumeration_Pnp", "Win32_UI_Shell_PropertiesSystem", "Win32_System_Variant", "implement"] }
