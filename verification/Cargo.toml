[package]
name = "p2p_fileshare"
version = "0.1.0"
edition = "2021"
publish = false
