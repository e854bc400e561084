[package]
name = "crab_share"
version = "0.1.0"
edition = "2021"
publish = false

[dependencies]
rusty-s3 = "*"
ulid = "*"
bytesize = "*"
clap = { version = "*", features = ["derive"] }
flume = "*"
fs_extra = "*"
indicatif = "*"
reqwest = { version = "*", default-features = false }
serde = { version = "*", features = ["derive"] }
serde_json = "*"
tokio = { version = "*", features = ["macros", "rt-multi-thread"] }
walkdir = "*"
zip = { version = "*", default-features = false, features = ["deflate", "bzip2", "zstd"] }
