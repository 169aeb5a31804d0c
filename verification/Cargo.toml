[package]
name = "quickmark"
version = "0.1.0"
edition = "2021"
publish = false

[dependencies]
regex = "*"
fancy-regex = "*"
html-escape = "*"
v_htmlescape = "*"
pulldown-latex = "*"
