[package]
name = "git_file_storage"
version = "0.1.0"
edition = "2021"
publish = false

[dependencies]
anyhow = "*"
bytesize = "*"
clap = { version = "*", features = ["derive"] }
clap-verbosity-flag = "*"
env_logger = "*"
fastcdc = "*"
gix = "*"
itertools = "*"
log = "*"
prng_split = "*"
scopeguard = "*"
serde = { version = "*", features = ["derive"] }
serde_json = "*"
serde_jsonc = "*"
sha1 = "*"
