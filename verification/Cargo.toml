[package]
name = "glyph_bands"
version = "0.1.0"
edition = "2021"
publish = false

[dependencies]
owned_ttf_parser = "*"
ttf-parser = "*"
serde = { version = "*", features = ["derive"] }
toml = "*"
