//! Trojan-protocol tunnel server core: wire codecs, UDP reassembly, token-bucket
//! rate limiting, the user store with IP-concurrency enforcement and traffic
//! counters, the control-plane reconciliation rules, and the per-connection
//! relay state machine. Everything here is verified; the asynchronous I/O that
//! drives it lives outside the library.

pub mod addr;
pub mod fallback;
pub mod limiter;
pub mod net;
pub mod proto;
pub mod relay;
pub mod request;
pub mod session;
pub mod store;
pub mod sync;
pub mod udp;
pub mod utf8;
