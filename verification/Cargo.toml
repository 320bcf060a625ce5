[package]
name = "vgv"
version = "0.1.0"
edition = "2021"
publish = false

[dependencies]
diff-match-patch-rs = "*"
base64 = "*"
anyhow = "*"
pico-args = "*"
serde = { version = "*", features = ["derive"] }
serde_json = "*"
resvg = "*"
usvg = "*"
tiny-skia = "*"
