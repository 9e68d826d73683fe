[package]
name = "resource_gateway"
version = "0.1.0"
edition = "2021"
publish = false

[dependencies]
rosc = "*"
serde_json = "*"
uuid = { version = "*", features = ["v4", "serde"] }
serde = { version = "*", features = ["derive"] }
rocket = { version = "*", features = ["json"] }
rocket_dyn_templates = { version = "*", features = ["handlebars"] }
reqwest = { version = "*", default-features = false, features = ["json"] }
reqwest-websocket = "*"
tokio = { version = "*", features = ["fs", "time"] }
futures-util = "*"
image = { version = "*", default-features = false, features = ["jpeg"] }
clap = { version = "*", features = ["derive"] }
home = "*"
