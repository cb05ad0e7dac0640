[package]
name = "dnd_thing_server"
version = "0.1.0"
edition = "2021"
publish = false

[dependencies]
uuid = { version = "1", features = ["v4"] }
actix = "0.13"
actix-web = "4"
actix-ws = "0.3"
tokio = { version = "1", features = ["time", "macros", "rt", "sync"] }
futures-util = "0.3"
serde = { version = "1", features = ["derive"] }
serde_json = "1"
chrono = { version = "0.4", default-features = false, features = ["clock"] }
oauth2 = { version = "4", default-features = false, features = ["reqwest"] }
reqwest = { version = "0.11", default-features = false, features = ["json"] }
sqlx = { version = "0.8", default-features = false, features = ["postgres", "runtime-tokio"] }
