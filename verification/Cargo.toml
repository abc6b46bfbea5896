[package]
name = "arpchat"
version = "0.1.0"
edition = "2021"
publish = false

[dependencies]
smaz = "*"
rand = "*"
gethostname = "*"
pnet = "*"
crossbeam = "*"
log = "*"
fern = "*"
chrono = "*"
directories = "*"
toml = "*"
serde = { version = "*", features = ["derive"] }
