[package]
name = "oxifuzz"
version = "0.1.0"
edition = "2021"
publish = false

[dependencies]
rand = "0.8"
base64 = "*"
hmac = "*"
sha2 = "*"
regex = "*"
shell-words = "*"
console = "*"
openssl = "*"
isahc = "*"
clap = { version = "*", features = ["derive"] }
clap_complete = "*"
log = "*"
simple_logger = "*"
