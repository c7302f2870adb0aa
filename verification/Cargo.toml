[package]
name = "mega"
version = "0.1.0"
edition = "2021"
publish = false

[dependencies]
audrey = "=0.3.0"
cpal = "=0.11.0"
crossbeam = "=0.7.3"
dasp_interpolate = { version = "0.11", features = ["linear"] }
dasp_signal = "0.11"
deepspeech = "=0.8.0"
rlua = "=0.17.1"
tv1d = "=0.1.0"
winapi = { version = "=0.3.9", features = ["combaseapi", "guiddef", "objbase", "sapi", "winerror", "winnt"] }
