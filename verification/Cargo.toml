[package]
name = "pevm"
version = "0.1.0"
edition = "2021"
publish = false

[dependencies]
alloy-consensus = { version = "=2.5.0", default-features = false, features = ["std"] }
alloy-eips = { version = "=2.5.0", default-features = false, features = ["std"] }
alloy-primitives = "=1.7.3"
alloy-rlp = "=0.3.17"
alloy-rpc-types-eth = "=2.5.0"
alloy-trie = "=0.9.9"
bitflags = "=2.13.2"
dashmap = "=6.2.1"
hashbrown = "=0.17.1"
op-alloy-consensus = { version = "=2.0.0", default-features = false, features = ["std"] }
op-revm = { version = "=20.0.0", default-features = false, features = ["std"] }
rayon = "=1.12.0"
revm = { version = "=43.0.3", default-features = false, features = ["std"] }
rustc-hash = "=2.1.3"
serde = { version = "=1.0.229", features = ["derive"] }
serde_json = "=1.0.154"
smallvec = "=1.16.4"
thiserror = "=2.0.21"
