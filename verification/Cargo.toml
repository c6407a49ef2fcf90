[package]
name = "pitch_detector"
version = "0.1.0"
edition = "2021"
publish = false

[dependencies]
anyhow = "1"
apodize = "*"
cpal = "*"
crossterm = "*"
dasp_sample = "*"
fitting = "*"
hound = "3"
itertools = "*"
num-traits = "0.2"
peak_finder = "*"
plotters = "*"
rustfft = "6"
smoothed_z_score = "*"
tokio = { version = "1", features = ["macros", "rt-multi-thread", "time"] }
tokio-util = "0.7"
tracing = "0.1"
tracing-subscriber = "0.3"

[dev-dependencies]
float-cmp = "*"
