[package]
name = "usnip"
version = "0.1.0"
edition = "2021"
publish = false

[dependencies]
clipboard-win = "*"
winapi = { version = "0.3", features = ["winuser", "commctrl", "libloaderapi", "processthreadsapi", "psapi", "wingdi", "winbase", "handleapi", "windef", "minwindef", "winnt", "ntdef", "winerror"] }
