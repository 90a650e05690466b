[package]
name = "lumen_dev"
version = "0.1.0"
edition = "2021"
publish = false

[dependencies]
smoltcp = { version = "=0.12.0", default-features = false, features = ["std", "medium-ethernet", "proto-ipv4", "proto-dhcpv4", "socket-udp", "socket-dhcpv4", "multicast"] }
critical-section = { version = "=1.2.0", features = ["std"] }
esp-hal = { version = "=0.23.1", features = ["esp32c3"] }
esp-wifi = { version = "=0.12.0", features = ["esp32c3", "wifi", "smoltcp"] }
esp-println = { version = "=0.13.1", features = ["esp32c3"] }
esp-backtrace = { version = "=0.15.1", features = ["esp32c3", "panic-handler", "println"] }
esp-alloc = "=0.6.0"
