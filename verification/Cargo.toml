[package]
name = "rust_mangakakalot"
version = "0.1.0"
edition = "2021"
publish = false

[dependencies]
anyhow = "1"
clap = { version = "4", features = ["derive"] }
colored = "2"
dotenv = "0.15"
regex = "1"
reqwest = { version = "0.11", default-features = false, features = ["rustls-tls"] }
select = "0.6"
term_size = "0.3"
tokio = { version = "1", features = ["macros", "rt-multi-thread", "time"] }
url = "2"
zip = { version = "0.6", default-features = false }
