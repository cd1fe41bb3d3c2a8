[package]
name = "mem3"
version = "0.1.0"
edition = "2021"
publish = false

[dependencies]
syn = { version = "=2.0.119", features = ["full", "visit-mut", "extra-traits"] }
quote = "=1.0.47"
proc-macro2 = "=1.0.107"
cortex-m = "=0.7.10"
cortex-m-semihosting = "=0.5.0"
stm32f3xx-hal-v2 = { version = "=0.6.0", features = ["stm32f303xe"] }
volatile = "=0.2.7"
