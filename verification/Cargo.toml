[package]
name = "text_buffer"
version = "0.1.0"
edition = "2021"
publish = false

[dependencies]
euclid = "0.22"
ropey = "1.6"
size_format = "1.0"
termion = "1.5"
tree-sitter = "0.20"
unicode-segmentation = "1"
unicode-width = "0.1"
