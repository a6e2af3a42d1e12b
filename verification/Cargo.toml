[package]
name = "zkp_auth"
version = "0.1.0"
edition = "2021"
publish = false

[dependencies]
crypto-bigint = "=0.6.1"
crypto-primes = "=0.6.2"
is_prime = "=2.0.9"
rand_core = "=0.6.4"
uuid = { version = "=1.27.0", features = ["v4"] }
tokio = { version = "=1.53.2", features = ["rt-multi-thread", "net", "io-util", "macros", "sync", "time"] }
clap = "=4.6.7"
dotenv = "=0.15.0"
env_logger = "=0.11.11"
rpassword = "=7.5.4"
log = "=0.4.34"
num-bigint = "*"
anyhow = "=1.0.104"
