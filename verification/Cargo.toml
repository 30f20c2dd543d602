[package]
name = "map_tile_service"
version = "0.1.0"
edition = "2021"
publish = false

[dependencies]
image = { version = "*", default-features = false, features = ["png", "jpeg", "webp"] }
uuid = { version = "*", features = ["v4"] }
chrono = "*"
serde = { version = "*", features = ["derive"] }
serde_json = "*"
base64 = "*"
redis = { version = "*", features = ["tokio-comp", "connection-manager"] }
thiserror = "*"
bytes = "*"
rayon = "*"
reqwest = { version = "*", default-features = false }
actix-web = { version = "*", default-features = false, features = ["macros"] }
actix-cors = "*"
sqlx = { version = "*", default-features = false, features = ["runtime-tokio", "postgres", "uuid", "chrono"] }
aws-config = "*"
aws-sdk-s3 = "*"
log = "*"
tracing = "*"
