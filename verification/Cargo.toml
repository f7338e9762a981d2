[package]
name = "vexdoc"
version = "0.1.0"
edition = "2021"
publish = false

[dependencies]
argh = "0.1"
build_html = "2"
indicatif = "0.17"
rayon = "1"
serde = { version = "1", features = ["derive"] }
toml = "0.8"
