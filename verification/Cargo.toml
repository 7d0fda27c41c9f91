[package]
name = "youdao_dict"
version = "0.1.0"
edition = "2021"
publish = false

[dependencies]
ansi_term = "0.12"
base64 = "0.21"
serde_json = "1"
reqwest = { version = "0.12", default-features = false, features = ["blocking"] }
rustyline = "14"
rusqlite = { version = "0.31", features = ["bundled"] }
mpd = "*"
gtk = "*"
gdk = "*"
glib = "*"

[dev-dependencies]
regex = "1"
