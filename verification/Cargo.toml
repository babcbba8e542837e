[package]
name = "keebifa"
version = "0.1.0"
edition = "2021"
publish = false

[dependencies]
keyberon = "=0.1.1"
embedded-hal = "=0.2.7"
usb-device = "=0.2.9"
cortex-m = "=0.7.10"
cortex-m-rtic = "=1.1.4"
embedded-time = "=0.12.1"
adafruit-kb2040 = "=0.6.0"
defmt-rtt = "=0.4.2"
panic-halt = "0.2"
