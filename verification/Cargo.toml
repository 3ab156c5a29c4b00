[package]
name = "rhdlc"
version = "0.1.0"
edition = "2021"
publish = false

[dependencies]
clap = "2"
codespan = "0.11"
codespan-reporting = "0.11"
lalrpop-util = "0.19"
syn = { version = "1", features = ["full", "visit", "visit-mut", "extra-traits"] }
proc-macro2 = { version = "1", features = ["span-locations"] }
petgraph = "0.5"
z3 = "0.9"
fxhash = "0.2"
fnv = "1"
num-traits = "0.2"
paste = "1"
colored = "2"
log = "0.4"
env_logger = "0.8"
