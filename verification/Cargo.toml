[package]
name = "rtos_kernel"
version = "0.1.0"
edition = "2021"
publish = false

[dependencies]
heapless = "0.7"
cortex-m = "0.7"
cortex-m-rt = "0.6"
embedded-hal = "0.2"
lazy_static = "1"
stm32h7xx-hal = { version = "0.10", features = ["stm32h743v"] }
