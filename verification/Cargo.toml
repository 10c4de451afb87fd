[package]
name = "axuser_perm"
version = "0.1.0"
edition = "2021"
publish = false

[dependencies]
axerrno = "=0.1.2"
axfs_vfs = "=0.1.2"
axio = "=0.1.2"
log = "0.4"
sha1_smol = "1"
