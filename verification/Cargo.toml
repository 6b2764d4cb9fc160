[package]
name = "pico_dma"
version = "0.1.0"
edition = "2021"
publish = false

[dependencies]
cortex-m = "=0.7.10"
cortex-m-rt = "=0.7.7"
fugit = "=0.3.9"
log = "=0.4.34"
pio = "=0.2.1"
pio-proc = "=0.2.2"
rp2040-boot2 = "=0.3.0"
rp2040-hal = { version = "=0.11.0", features = ["rt", "critical-section-impl", "binary-info"] }
rp2040-pac = "=0.6.0"
