[package]
name = "pixie_stitch"
version = "0.1.0"
edition = "2021"
publish = false

[dependencies]
bincode = "1"
color-art = "*"
gif = "0.10"
hsl = "*"
indexmap = "2"
log = "0.4"
png = "0.17"
rayon = "1"
serde = { version = "1", features = ["derive"] }
serde_derive = "1"
serde_json = "1"
