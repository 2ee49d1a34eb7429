[package]
name = "rp_pio_serial"
version = "0.6.0"
edition = "2021"
publish = false

[dependencies]
heapless = "=0.8.0"
cortex-m = "=0.7.10"
cortex-m-rt = "=0.7.7"
pio = "=0.2.1"
pio-proc = "=0.2.2"
rp2040-hal = { version = "=0.11.0", features = ["rt", "critical-section-impl"] }
rp235x-hal = { version = "=0.3.0", features = ["rt", "critical-section-impl"] }
rp2040-boot2 = "=0.3.0"
panic-halt = "=1.0.0"
