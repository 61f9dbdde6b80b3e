[package]
name = "syncaudio"
version = "0.1.0"
edition = "2021"
publish = false

[dependencies]
ringbuf = "=0.3.3"
anyhow = "=1.0.104"
log = "=0.4.35"
env_logger = "=0.11.11"
parking_lot = "=0.12.5"
tokio = { version = "=1.54.1", features = ["net", "time", "sync", "rt", "macros"] }
cpal = "=0.15.3"
serde = { version = "=1.0.229", features = ["derive"] }
serde_json = "=1.0.154"
windows = { version = "=0.54.0", features = ["Win32_Foundation", "Win32_Media_Audio", "Win32_Media_Audio_Endpoints", "Win32_System_Com"] }
