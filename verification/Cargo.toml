[package]
name = "trilogy_save_editor"
version = "0.1.0"
edition = "2021"
publish = false

[dependencies]
anyhow = "=1.0.104"
bitvec = "=1.1.1"
clap = "=4.6.7"
derive_more = { version = "=2.1.1", features = ["deref", "deref_mut"] }
dirs = "=7.0.0"
flume = "=0.12.0"
imgui = { version = "=0.12.0", features = ["tables-api"] }
indexmap = { version = "=2.14.2", features = ["serde"] }
serde = { version = "=1.0.229", features = ["derive"] }
tinyfiledialogs = "=3.9.1"
unicase = "=2.10.0"
web-sys = { version = "=0.3.106", features = ["HtmlInputElement"] }
yew = "=0.23.0"
