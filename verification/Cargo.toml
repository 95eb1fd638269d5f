[package]
name = "turso_pg"
version = "0.1.0"
edition = "2021"
publish = false

[dependencies]
pg_query = "*"
pgwire = "*"
