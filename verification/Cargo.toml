[package]
name = "duo_stark"
version = "0.1.0"
edition = "2021"
publish = false

[dependencies]
itertools = "*"
p3-air = "*"
p3-baby-bear = "*"
p3-challenger = "*"
p3-commit = "*"
p3-field = "*"
p3-matrix = "*"
p3-maybe-rayon = "*"
p3-util = "*"
tracing = "*"

[dev-dependencies]
p3-dft = "*"
p3-fri = "*"
p3-keccak = "*"
p3-merkle-tree = "*"
p3-symmetric = "*"
rand = "*"
