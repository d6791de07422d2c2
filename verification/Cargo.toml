[package]
name = "audeye"
version = "0.1.0"
edition = "2021"
publish = false

[dependencies]
apodize = "1"
colorgrad = "0.6"
crossterm = "0.25"
fast_image_resize = "2"
rand = "0.8"
rayon = "1"
realfft = "3"
sndfile = "0.1"
structopt = "0.3"
termion = "1.5"
tui = { version = "0.19", default-features = false, features = ["termion", "crossterm"] }
