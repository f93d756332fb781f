[package]
name = "mini_sql_parser"
version = "0.1.0"
edition = "2021"
publish = false

[dependencies]
peg = "=0.8.6"
