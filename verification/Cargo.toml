[package]
name = "sshdt"
version = "0.1.0"
edition = "2021"
publish = false

[dependencies]
anyhow = "=1.0.104"
argh = "=0.1.19"
dirs = "=7.0.0"
fs4 = "=1.1.0"
libc = "=0.2.191"
process-wrap = { version = "*", default-features = false, features = ["tokio1", "job-object", "kill-on-drop"] }
rand = "=0.10.3"
rmux-pty = "=0.10.0"
russh = { version = "=0.65.0", default-features = false, features = ["ring", "flate2", "rsa"] }
russh-sftp = "=3.0.1"
serde = { version = "=1.0.229", features = ["derive"] }
serde_json = "=1.0.154"
tempfile = "=3.27.0"
thiserror = "=2.0.21"
time = "=0.3.55"
tokio = { version = "=1.54.1", features = ["full"] }
toml = "=1.1.8"
tracing = "=0.1.44"
tracing-appender = "=0.2.5"
tracing-subscriber = { version = "=0.3.23", features = ["env-filter"] }
windows-registry = "*"
windows-result = "=0.4.1"
windows-sys = { version = "=0.61.2", features = ["Win32_Foundation", "Win32_NetworkManagement_IpHelper", "Win32_NetworkManagement_Ndis", "Win32_Networking_WinSock", "Win32_Security", "Win32_Security_Authorization", "Win32_System_Threading"] }
