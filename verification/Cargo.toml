[package]
name = "luxifer"
version = "0.1.0"
edition = "2021"
publish = false

[dependencies]
serde = { version = "=1.0.229", features = ["derive"] }
serde_json = "=1.0.154"
image = { version = "=0.25.10", default-features = false, features = ["png"] }
cavalier_contours = "*"
i_overlay = "*"
ttf-parser = "*"
dxf = "*"
usvg = { version = "*", default-features = false }
