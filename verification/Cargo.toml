[package]
name = "thermostatd"
version = "0.1.0"
edition = "2021"
publish = false

[dependencies]
chrono = "=0.4.45"
rumqttc = { version = "=0.25.1", default-features = false }
tokio = { version = "=1.53.2", features = ["rt-multi-thread", "macros", "time", "sync"] }
mlua = { version = "=0.12.2", features = ["lua54", "vendored", "async"] }
redis = { version = "*", features = ["tokio-comp", "connection-manager"] }
