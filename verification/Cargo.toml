[package]
name = "hotel_reservation"
version = "0.1.0"
edition = "2021"
publish = false

[dependencies]
mongodb = "2"
tokio = { version = "1", features = ["macros", "rt-multi-thread", "sync", "time"] }
futures = "0.3"
colored = "2"
tonic = "0.8"
rand = "0.8"
