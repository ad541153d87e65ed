[package]
name = "logon_report"
version = "0.1.0"
edition = "2021"
publish = false

[dependencies]
html2md-rs = "=0.10.2"
