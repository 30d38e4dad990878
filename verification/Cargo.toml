[package]
name = "capable"
version = "0.1.0"
edition = "2021"
publish = false

[dependencies]
anyhow = "1"
aya = "=0.14.0"
aya-log = "=0.3.0"
capctl = "=0.2.4"
dashmap = "=6.2.1"
dbus = "=0.9.12"
libc = "0.2"
log = "0.4"
nix = { version = "=0.31.3", features = ["fs", "process", "signal", "user"] }
pest = "=2.9.4"
pest_derive = "=2.9.4"
serde = { version = "1", features = ["derive"] }
serde_json = "1"
shell-words = "=1.1.1"
signal-hook = "0.3"
syslog-tracing = "=0.3.1"
tabled = "=0.22.0"
tracing = "0.1"
tracing-subscriber = "0.3"
unshare = "=0.7.0"
which = "=8.0.6"
