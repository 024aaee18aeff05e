[package]
name = "shape_perceptron"
version = "0.1.0"
edition = "2021"
publish = false

[dependencies]
rand = "0.8"
rand_chacha = "0.3"
log = "0.4"
dotenv = "0.15"
pretty_env_logger = "*"
