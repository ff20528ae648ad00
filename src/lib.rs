//! Verified core of a TCP/UDP port knocker: argument values and their
//! parsers, the retry driver, UDP knock planning, the inter-knock delay and
//! the bounded-concurrency admission scheduler.

pub mod addr;
pub mod cli;
pub mod errors;
pub mod scheduler;
pub mod jitter;
pub mod resolve;
pub mod retry;
pub mod udp;

pub use cli::{parse_hex_payload, parse_port, parse_ports, Cli, Protocol};
pub use errors::AppError;
