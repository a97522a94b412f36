[package]
name = "git_split"
version = "0.1.0"
edition = "2021"
publish = false

[dependencies]
anyhow = "1"
bpaf = "0.4"
digest = "0.9"
env_logger = "0.11"
itertools = "0.10"
log = "0.4"
meowhash = "0.3"
parse-display = "*"
regex = "1"
termion = "1.5"
