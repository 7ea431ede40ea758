//! An iterative DNS resolver: a wire-format codec for DNS messages and the
//! decision procedure that walks delegations from a root server down to an
//! address record.
//!
//! The codec and the walk are pure: the walk is a state machine that says
//! which query to send where, and takes the reply as bytes. Sending and
//! receiving datagrams is left to the caller.

pub mod error;
pub mod header;
pub mod ipv4;
pub mod message;
pub mod name;
pub mod reader;
pub mod resolver;
pub mod text;

pub use error::DnsError;
pub use header::DnsHeader;
pub use ipv4::IPv4;
pub use message::{DnsPacket, DnsQuestion, DnsRecord, ParsedData, CLASS_IN, TYPE_A, TYPE_NS};
pub use name::DnsName;
pub use reader::Reader;
pub use resolver::{build_query, build_query_with_id, QueryResponse, Resolution, Step, MAX_HOPS};
