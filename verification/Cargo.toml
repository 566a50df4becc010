[package]
name = "lingdocs"
version = "0.1.0"
edition = "2021"
publish = false

[dependencies]
html-escape = "*"
clap = { version = "*", features = ["derive"] }
css-minify = "*"
grass = "*"
minify-html = "*"
regex = "*"
serde = { version = "*", features = ["derive"] }
toml = "*"
