[package]
name = "keynot"
version = "0.4.0"
edition = "2021"
publish = false

[dependencies]
pulldown-cmark = { version = "0.13", default-features = false }
ratatui = "0.29"
unicode-width = "0.2"
syntect = { version = "5", default-features = false, features = ["default-fancy"] }
crossterm = "0.28"
clap = { version = "4", features = ["derive"] }
eyre = "0.6"
fs-err = "3"
serde = { version = "1", features = ["derive"] }
serde_norway = "0.9"
tachyonfx = "0.11"
ratatui-image = { version = "8", default-features = false, features = ["crossterm"] }
image = { version = "0.25", default-features = false, features = ["png", "jpeg", "gif"] }
ureq = "3"
