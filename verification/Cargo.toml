[package]
name = "yaroc"
version = "0.1.0"
edition = "2021"
publish = false

[dependencies]
chrono = "0.4"
heapless = "*"
serde = { version = "1", features = ["derive"] }
postcard = { version = "1", features = ["alloc"] }
rumqttc = "*"
geoutils = "*"
