[package]
name = "scandir"
version = "0.1.0"
edition = "2021"
publish = false

[dependencies]
glob = "*"
glob-sl = "*"
jwalk = "*"
jwalk-meta = "*"
flume = "*"
crossbeam-channel = "*"
expanduser = "*"
speedy = "*"
bincode = { version = "=2.0.1", features = ["serde"] }
serde = { version = "1", features = ["derive"] }
serde_derive = "1"
serde_json = "1"
