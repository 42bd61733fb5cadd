[package]
name = "snake_console"
version = "0.1.0"
edition = "2021"
publish = false

[dependencies]
heapless = "0.8"
hifive1 = { version = "*", features = ["board-hifive1-revb"] }
riscv-rt = "*"
panic-halt = "*"
