[package]
name = "graphql_vtab"
version = "0.1.0"
edition = "2021"
publish = false

[dependencies]
graphql-parser = "*"
rusqlite = { version = "*", features = ["vtab", "loadable_extension"] }
reqwest = { version = "*", features = ["blocking", "json"] }
serde = { version = "*", features = ["derive"] }
serde_json = "*"
