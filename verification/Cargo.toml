[package]
name = "xteink"
version = "0.1.0"
edition = "2021"
publish = false

[dependencies]
miniz_oxide = "=0.8.9"
heapless = "=0.8.0"
minifb = "=0.28.0"
embedded-sdmmc = "0.9"
embedded-hal = "1.0"
