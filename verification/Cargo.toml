[package]
name = "audiopc"
version = "0.1.0"
edition = "2021"
publish = false

[dependencies]
biquad = "0.5"
cpal = "0.17"
jni = "0.21"
ndk-context = "0.1"
once_cell = "1"
reqwest = { version = "0.12", default-features = false, features = ["blocking", "rustls-tls"] }
rustfft = "6"
serde_json = "1"
symphonia = { version = "0.5", features = ["all"] }
tempfile = "3"
