[package]
name = "near_os"
version = "0.1.0"
edition = "2021"
publish = false

[dependencies]
bootloader = { version = "=0.9.35", features = ["map_physical_memory"] }
linked_list_allocator = "=0.10.6"
x86_64 = { version = "=0.15.5", default-features = false, features = ["instructions"] }
