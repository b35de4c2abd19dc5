//! Network-reachability probe engine: CIDR host enumeration, ICMP echo
//! packet framing and validation, latency statistics, and batched scan
//! planning, with the socket work kept outside the library.

pub mod cli;
pub mod colors;
pub mod http;
pub mod icmp;
pub mod parser;
pub mod scan;
pub mod stats;
pub mod subnet;
pub mod text;
