[package]
name = "chess_engine"
version = "0.1.0"
edition = "2021"
publish = false

[dependencies]
sqlite = "*"
threadpool = "*"
num_cpus = "*"
log = "*"
env_logger = "*"
pgn_parser = "*"
