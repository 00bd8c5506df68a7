[package]
name = "memista"
version = "0.1.0"
edition = "2021"
publish = false

[dependencies]
actix-web = "=4.18.1"
anyhow = "=1.0.104"
apistos = { version = "=0.9.0", features = ["rapidoc", "redoc", "scalar", "swagger-ui"] }
apistos-schemars = "=0.8.22"
async-sqlite = "=0.6.0"
cxx = "=1.0.205"
env_logger = "=0.11.11"
log = "=0.4.34"
serde = { version = "=1.0.229", features = ["derive"] }
serde_json = "=1.0.154"
usearch = "=2.26.6"
