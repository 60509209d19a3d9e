//! Decision logic of a DNS-over-HTTPS forwarding proxy: which resolver to use,
//! how a received DNS datagram is judged, what HTTPS request it becomes, and
//! what the proxy does at each step of one forwarded exchange.

pub mod decimal;
pub mod config;
pub mod exchange;
pub mod query;
pub mod request;
pub mod resolver;

pub use config::Config;
pub use resolver::Resolver;
