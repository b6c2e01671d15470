[package]
name = "arch_aim_trainer"
version = "0.1.1"
edition = "2021"
publish = false

[dependencies]
macroquad = "0.4"
