[package]
name = "anytomd"
version = "0.1.0"
edition = "2021"
publish = false

[dependencies]
quick-xml = "*"
zip = { version = "*", default-features = false, features = ["deflate"] }
encoding_rs = "*"
serde_json = "*"
scraper = "*"
ego-tree = "*"
calamine = { version = "*", features = ["dates"] }
chrono = { version = "*", default-features = false, features = ["std"] }
base64 = "*"
ureq = { version = "*", default-features = false }
reqwest = { version = "*", default-features = false, features = ["json"] }
futures-util = { version = "*", default-features = false, features = ["std"] }
thiserror = "*"
csv = "*"
