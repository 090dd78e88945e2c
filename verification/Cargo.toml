[package]
name = "sheet_to_xml"
version = "0.1.0"
edition = "2021"
publish = false

[dependencies]
calamine = "*"
flutter_rust_bridge = "2"
