[package]
name = "samd51_hid_injector"
version = "0.1.0"
edition = "2021"
publish = false

[dependencies]
heapless = "=0.8.0"
hash32 = "=0.3.1"
atsamd-hal = { version = "=0.23.4", features = ["samd51j", "usb"] }
cortex-m-rt = "=0.7.7"
panic-halt = "=1.0.0"
usb-device = "=0.3.2"
usbd-serial = "=0.2.2"
