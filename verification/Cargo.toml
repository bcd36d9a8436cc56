[package]
name = "led_badge"
version = "0.1.0"
edition = "2021"
publish = false

[dependencies]
chrono = "=0.4.45"
gethostname = "=0.4.3"
anyhow = "=1.0.104"
clap = { version = "=4.6.7", features = ["derive"] }
tokio = { version = "=1.54.1", features = ["macros", "rt-multi-thread", "time"] }
serde = { version = "=1.0.229", features = ["derive"] }
reqwest = { version = "=0.12.28", default-features = false, features = ["json"] }
sysinfo = "=0.30.13"
hidapi = { version = "=2.6.7", default-features = false, features = ["linux-native-basic-udev"] }
rusb = "=0.9.4"
libc = "=0.2.191"
nvml-wrapper = "=0.10.0"
