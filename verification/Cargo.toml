[package]
name = "nautilus"
version = "0.1.0"
edition = "2021"
publish = false

[dependencies]
chrono = { version = "0.4", features = ["serde"] }
clap = "*"
dialoguer = "*"
diesel = { version = "*", features = ["postgres", "chrono"] }
dirs = "*"
dotenv = "*"
prettytable-rs = "*"
serde = { version = "1", features = ["derive"] }
serde_derive = "1"
serde_json = "1"
simple_prompts = "*"
subprocess = "*"
tempfile = "*"
vim_edit = "*"
