[package]
name = "mcp_tools"
version = "0.1.0"
edition = "2021"
publish = false

[dependencies]
poem = "=3.1.12"
poem-mcpserver = { version = "=0.3.1", features = ["streamable-http"] }
schemars = "=1.2.2"
serde = { version = "=1.0.229", features = ["derive"] }
tokio = { version = "=1.53.2", features = ["macros", "rt-multi-thread"] }
