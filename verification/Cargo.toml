[package]
name = "calc_bridge"
version = "0.1.0"
edition = "2021"
publish = false

[dependencies]
heapless = "0.8"
cortex-m = "0.7"
cortex-m-rt = "0.7"
panic-semihosting = "0.6"
stm32l4 = { version = "0.15", features = ["stm32l4x2", "rt"] }
stm32u5 = { version = "*", features = ["stm32u575", "rt"] }
