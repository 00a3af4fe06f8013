[package]
name = "simplest_lockfree_hashtable"
version = "0.1.0"
edition = "2021"
publish = false

[dependencies]
murmur3 = "*"
