[package]
name = "memorydb"
version = "0.1.0"
edition = "2021"
publish = false

[dependencies]
hashdb = "*"
heapsize = "0.4"
rlp = "*"
sha3 = "0.10"
