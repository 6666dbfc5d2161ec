[package]
name = "gremlin"
version = "0.1.0"
edition = "2021"
publish = false

[dependencies]
voca_rs = "1"
webpki = "0.21"
rustls = { version = "0.19", features = ["dangerous_configuration"] }
tui = { version = "0.19", default-features = false, features = ["termion"] }
termion = "1.5"
reqwest = { version = "0.11", default-features = false, features = ["blocking", "rustls-tls"] }
