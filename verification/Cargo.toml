[package]
name = "termimg"
version = "0.1.0"
edition = "2021"
publish = false

[dependencies]
base64 = "=0.21.7"
infer = "=0.22.0"
image = "=0.23.14"
termion = "=2.0.3"
nix = "=0.26.4"
resvg = "=0.12.0"
usvg = "=0.12.0"
docopt = "=1.1.1"
serde = "=1.0.229"
serde_derive = "=1.0.229"
seek_bufread = "=1.2.2"
terminal_size = "=0.2.6"
sixel-rs = "=0.5.0"
thiserror = "=1.0.69"
