[package]
name = "agent_shell_core"
version = "0.1.0"
edition = "2021"
publish = false

[dependencies]
alacritty_terminal = "0.25"
base64 = "0.22"
clap = { version = "4", features = ["derive"] }
dialoguer = "0.11"
libc = "0.2"
nix = { version = "0.29", features = ["signal", "term", "process", "fs", "ioctl"] }
portable-pty = "0.8"
regex = "1"
serde = { version = "1", features = ["derive"] }
serde_json = "1"
shellexpand = "3"
tokio = { version = "1", features = ["full"] }
toml = "0.8"
uuid = { version = "1", features = ["v4"] }
vte = "0.13"

[dev-dependencies]
tempfile = "3"
