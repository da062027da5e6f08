[package]
name = "lithographer"
version = "0.1.0"
edition = "2021"
publish = false

[dependencies]
liblitho = "=0.2.0"
serde = { version = "1", features = ["derive"] }
rfd = "0.15"
winapi = { version = "0.3", features = ["wincon", "winuser", "consoleapi", "errhandlingapi", "winbase", "fileapi", "handleapi", "processenv", "winnt", "processthreadsapi", "securitybaseapi", "shellapi", "synchapi", "sysinfoapi", "minwindef", "winerror"] }
