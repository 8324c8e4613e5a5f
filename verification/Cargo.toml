[package]
name = "lsdblox"
version = "0.1.0"
edition = "2021"
publish = false

[dependencies]
base64 = "0.22"
image = { version = "0.25", default-features = false, features = ["png", "jpeg", "bmp", "gif", "tga"] }
png = "0.17"
tobj = "4"
ahash = "0.8"
macroquad = "0.4"
rouille = "3"
sqlx = { version = "0.8", default-features = false, features = ["mysql", "runtime-tokio", "macros"] }
tokio = { version = "1", features = ["rt-multi-thread"] }
dotenv = "0.15"
