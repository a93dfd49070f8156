[package]
name = "biquad_studio"
version = "0.1.0"
edition = "2021"
publish = false

[dependencies]
serde = { version = "=1.0.229", features = ["derive"] }
thiserror = "=2.0.21"
tracing = "=0.1.44"
tracing-subscriber = { version = "=0.3.23", default-features = false, features = ["fmt", "env-filter", "std"] }
rtrb = "=0.4.1"
atomic_float = "=1.1.0"
sysinfo = { version = "=0.40.1", default-features = false, features = ["system"] }
windows = { version = "=0.58.0", features = ["Win32_Foundation", "Win32_Media_Audio", "Win32_System_Com", "Win32_System_Com_StructuredStorage", "Win32_System_Variant", "Win32_Devices_FunctionDiscovery", "Win32_UI_Shell_PropertiesSystem", "Win32_System_Threading"] }
