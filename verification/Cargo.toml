[package]
name = "search_select"
version = "0.1.0"
edition = "2021"
publish = false

[dependencies]
yew = "0.18"
yewtil = "0.4"
