[package]
name = "annotate_snippets"
version = "0.1.0"
edition = "2021"
publish = false

[dependencies]
unicode-width = "*"
anstyle = "*"
memchr = "*"
termcolor = "*"
ansi_term = "*"
