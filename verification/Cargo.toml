[package]
name = "cios"
version = "0.1.0"
edition = "2021"
publish = false

[dependencies]
pc-keyboard = "*"
spin = "*"
x86_64 = "*"
lazy_static = "*"
pic8259 = "*"
limine = "*"
linked_list_allocator = "*"
fontdue = "*"
image = { version = "*", default-features = false, features = ["jpeg", "png"] }
