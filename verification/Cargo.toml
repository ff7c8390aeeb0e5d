[package]
name = "panaud"
version = "0.1.0"
edition = "2021"
publish = false

[dependencies]
flacenc = "=0.5.1"
mp3lame-encoder = "=0.2.5"
symphonia = { version = "=0.5.5", features = ["mp3", "aac", "isomp4"] }
hound = "=3.5.1"
rubato = "=0.15.0"
pan-common = { version = "=0.1.0", features = ["clap"] }
serde = { version = "=1.0.229", features = ["derive"] }
serde_json = "=1.0.154"
clap = { version = "=4.6.7", features = ["derive"] }
thiserror = "=2.0.21"
