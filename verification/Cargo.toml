[package]
name = "badge_scenes"
version = "0.1.0"
edition = "2021"
publish = false

[dependencies]
embedded-graphics = "=0.8.2"
palette = { version = "=0.7.7", default-features = false, features = ["libm"] }
embassy-time = "=0.5.1"
embassy-executor = "=0.9.1"
defmt = "=1.2.0"
disobey2026badge = "=0.1.2"
esp-hal = { version = "=1.2.2", features = ["esp32s3", "unstable"] }
esp-rtos = { version = "=0.2.0", features = ["embassy", "esp-alloc", "esp32s3"] }
esp-alloc = "=0.9.0"
esp-backtrace = { version = "=0.18.1", features = ["esp32s3", "panic-handler", "defmt"] }
esp-println = { version = "=0.16.1", features = ["esp32s3", "defmt-espflash"] }
esp-bootloader-esp-idf = { version = "=0.4.0", features = ["esp32s3"] }
static_cell = "=2.1.1"
