[package]
name = "tiro"
version = "0.1.0"
edition = "2021"
publish = false

[dependencies]
arboard = { version = "3", default-features = false }
ashpd = { version = "=0.13.13", default-features = false, features = ["tokio", "global_shortcuts", "remote_desktop", "screencast"] }
auto-launch = "0.5"
chrono = { version = "=0.4.45", default-features = false, features = ["clock", "std"] }
cpal = "0.18"
hound = "3"
libc = "0.2"
regex = "=1.13.1"
rodio = { version = "*", default-features = false, features = ["playback"] }
serde = { version = "1", features = ["derive"] }
serde_json = "=1.0.154"
ureq = "3"
whisper-rs = "0.16"
windows-sys = { version = "0.61", features = ["Win32_Foundation", "Win32_System_Console", "Win32_System_Power", "Win32_UI_Input_KeyboardAndMouse"] }
x11rb = { version = "0.13", features = ["xtest"] }
