[package]
name = "snake_card"
version = "0.1.0"
edition = "2021"
publish = false

[dependencies]
embassy-executor = "*"
embassy-sync = "*"
embassy-time = "*"
embedded-io-async = "*"
esp-bootloader-esp-idf = "*"
esp-hal = "*"
esp-println = "*"
esp-rtos = "*"
log = "*"
max7219 = "*"
