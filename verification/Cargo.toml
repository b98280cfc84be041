[package]
name = "markie"
version = "0.5.0"
edition = "2021"
publish = false

[dependencies]
base64 = "*"
latex2mathml = "*"
quick-xml = "*"
clap = { version = "*", features = ["derive"] }
clap_complete = "*"
cosmic-text = "*"
imagesize = "*"
lru = "*"
parking_lot = "*"
pulldown-cmark = "*"
resvg = "*"
serde = { version = "*", features = ["derive"] }
serde_yaml = "*"
svg2pdf = "*"
syntect = "*"
tiny-skia = "*"
toml = "*"
ureq = "*"
