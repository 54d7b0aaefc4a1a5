//! Protocol sniffing for a domain-routing TCP gateway: the HTTP `Host`
//! header and the TLS `server_name` extension are read from the first bytes
//! of a connection, validated into a routing key, and resolved to a backend.

pub mod cursor;
pub mod host;
pub mod tls;
pub mod http;
pub mod resolve;
pub mod session;
