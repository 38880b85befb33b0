//! The verified core of an MCP gateway: configuration, request routing and
//! admission, token-bucket rate limiting, the credential vault, the proxy's
//! header and URL rules, and the text the command-line tool prints.

pub mod cli;
pub mod config;
pub mod logger;
pub mod proxy;
pub mod rate_limit;
pub mod routes;
pub mod text;
pub mod usage;
pub mod vault;
