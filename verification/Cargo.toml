[package]
name = "notefeed"
version = "0.1.0"
edition = "2021"
publish = false

[dependencies]
chrono = "*"
select = "*"
rss = "*"
reqwest = { version = "*", default-features = false, features = ["blocking"] }
