[package]
name = "feed"
version = "0.1.0"
edition = "2021"
publish = false

[dependencies]
chrono = { version = "=0.4.45", features = ["serde"] }
clap = { version = "=3.2.25", features = ["derive", "cargo"] }
figment = { version = "=0.10.19", features = ["toml", "yaml"] }
fs_extra = "=1.3.0"
handlebars = { version = "=4.5.0", features = ["script_helper", "dir_source"] }
html-escape = "=0.2.15"
html-minifier = "=3.0.15"
latex2mathml = "=0.2.3"
regex = "=1.13.1"
reqwest = { version = "=0.11.27", features = ["json"] }
rhai = "=1.27.0"
rss = { version = "=2.1.2", features = ["with-serde"] }
serde = { version = "=1.0.229", features = ["derive"] }
serde_json = "=1.0.154"
tokio = { version = "=1.54.1", features = ["macros", "rt-multi-thread"] }
tracing = "=0.1.44"
tracing-subscriber = "=0.3.23"
v_latexescape = "=0.16.0"
warp = "=0.3.7"
