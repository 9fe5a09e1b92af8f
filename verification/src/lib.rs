//! A verified codec for the DNS wire format: the fixed 12-byte header,
//! length-prefixed label names with 14-bit pointer compression, question
//! entries, resource records, and whole messages.
use vstd::prelude::*;

pub mod bytes;
pub mod decompress;
pub mod header;
pub mod name;
pub mod question;
pub mod record;
pub mod packet;

pub use crate::decompress::dns_decompression;
pub use crate::header::DNSHeader;
pub use crate::name::domain_to_labels;
pub use crate::name::labels_to_domains;
pub use crate::packet::DNSPacket;
pub use crate::question::DNSQuestion;
pub use crate::question::parse_query_type;
pub use crate::record::DNSResourceRecord;

verus! {

/// The ways a DNS message can fail to encode or decode.
#[derive(Clone, Copy, Debug, PartialEq, Eq, Structural)]
pub enum DnsError {
    /// Fewer than 12 bytes where a header was expected.
    TruncatedHeader,
    /// A question entry ran past the end of the buffer.
    TruncatedQuestion,
    /// A resource record's fixed fields or data ran past the end of the buffer.
    TruncatedRecord,
    /// A name whose labels overrun the buffer, carry a reserved length prefix,
    /// or hold bytes outside printable ASCII where a dotted string is wanted.
    MalformedName,
    /// A compression pointer chain that cannot terminate.
    PointerLoop,
    /// A dotted domain name whose label or total length breaks the wire limits.
    InvalidName,
}

} // verus!
