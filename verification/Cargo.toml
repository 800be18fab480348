[package]
name = "aco_sync_nas_dirs"
version = "0.1.0"
edition = "2021"
publish = false

[dependencies]
dotenv = "0.15"
fs_extra = "1"
log = "0.4"
postgres = "0.19"
simple_logger = "*"
structopt = "0.3"
