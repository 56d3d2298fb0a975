[package]
name = "fbx"
version = "0.1.0"
edition = "2021"
publish = false

[dependencies]
indextree = "3.3"
libflate = "1"
string-interner = "0.7"
