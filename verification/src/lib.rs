//! A transparent, on-path HTTP content mangler for a gateway host.
//!
//! The library is the whole packet-processing pipeline: Internet checksum
//! computation, bounds-checked IPv4/TCP header parsing, HTTP request
//! detection and URL extraction, an ordered first-match rule table that
//! rewrites matching payloads, datagram reconstruction with recomputed
//! checksums, and the shared counters the stages update. Capturing and
//! re-injecting link frames, and everything else that touches the
//! operating system, lives outside the library and hands it plain bytes.

pub mod checksum;
pub mod headers;
pub mod http;
pub mod pipeline;
pub mod rebuild;
pub mod rules;
pub mod stats;
pub mod text;

pub use checksum::checksum;
pub use headers::{parse_ipv4, parse_tcp, payload, Ipv4Header, TcpHeader};
pub use http::{extract_url, is_http_request};
pub use pipeline::GatewayProxy;
pub use rebuild::rebuild_packet;
pub use rules::{apply_rules, default_rules, ModificationRule, TransformKind};
pub use stats::ProxyStats;
