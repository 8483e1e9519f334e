[package]
name = "coffer"
version = "0.1.3"
edition = "2021"
publish = false

[dependencies]
anyhow = "1"
clap = { version = "4", features = ["derive"] }
clap_complete = "4"
daemonize = "0.5"
fuser = "*"
libc = "0.2"
nix = { version = "*", features = ["fs"] }
rpassword = "*"
rusqlite = { version = "*", features = ["backup", "bundled-sqlcipher-vendored-openssl"] }
zeroize = "1"
