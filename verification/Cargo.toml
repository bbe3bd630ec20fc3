[package]
name = "squeakmail"
version = "0.1.0"
edition = "2021"
publish = false

[dependencies]
atom_syndication = "*"
attohttpc = { version = "*", default-features = false }
chrono = "*"
clap = "*"
directories = "*"
lettre = { version = "*", default-features = false, features = ["sendmail-transport", "builder"] }
rss = "*"
rusqlite = { version = "*", features = ["bundled"] }
serde = { version = "*", features = ["derive"] }
tera = "*"
toml = "*"
