[package]
name = "tcping"
version = "0.1.0"
edition = "2021"
publish = false

[dependencies]
clap = { version = "4", features = ["derive"] }
colored = "2"
ctrlc = "3"
dns-lookup = "2"
tokio = { version = "1", features = ["net", "time", "rt-multi-thread", "macros"] }
