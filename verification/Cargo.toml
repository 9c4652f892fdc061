[package]
name = "slsify"
version = "0.1.0"
edition = "2021"
publish = false

[dependencies]
clap = { version = "4", features = ["derive"] }
env_logger = "*"
goblin = "*"
iced-x86 = { version = "1", features = ["code_asm"] }
libc = "0.2"
log = "0.4"
procfs = "*"
scroll = "*"
serde = { version = "1", features = ["derive"] }
serde_json = "1"
