[package]
name = "pro_controller"
version = "0.1.0"
edition = "2021"
publish = false

[dependencies]
heapless = "=0.7.17"
fixed-queue = "=0.5.2"
libm = "=0.2.16"
usb-device = "=0.2.9"
usbd-hid = "=0.6.2"
