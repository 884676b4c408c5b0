[package]
name = "vscode2helix"
version = "0.1.0"
edition = "2021"
publish = false

[dependencies]
actix-web = { version = "4", default-features = false, features = ["macros"] }
clap = { version = "3", features = ["derive"] }
json_comments = "0.2"
serde = { version = "1", features = ["derive"] }
serde_json = "1"
toml = "0.5"
