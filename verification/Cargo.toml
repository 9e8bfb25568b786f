[package]
name = "agent_skills_lint"
version = "0.1.0"
edition = "2021"
publish = false

[dependencies]
serde_yaml = "0.9"
unicode-normalization = "0.1"
clap = { version = "4", features = ["derive"] }
walkdir = "2"
