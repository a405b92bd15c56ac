[package]
name = "xml_infoset"
version = "0.1.0"
edition = "2021"
publish = false

[dependencies]
xmlparser = "*"
thiserror = "*"
