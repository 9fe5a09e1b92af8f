//! The header codec: the fixed 12-byte message header of six big-endian
//! 16-bit fields, with the bit-packed flag word picked apart arithmetically.
use vstd::prelude::*;

use crate::DnsError;
use crate::bytes::be16;
use crate::bytes::be16_bytes;
use crate::bytes::push_be16;
use crate::bytes::read_be16;

verus! {

/// The flag word of a standard query: recursion desired, everything else
/// zero.
pub const QUERY_FLAGS: u16 = 0x0100;

/// The fixed header that opens every DNS message.
#[derive(Clone, Copy, Debug, PartialEq, Eq, Structural)]
pub struct DNSHeader {
    /// Transaction id; a response carries the id of its query.
    pub query_id: u16,
    /// Bit-packed flags, most significant bit first: query/response bit,
    /// 4-bit opcode, authoritative-answer bit, truncation bit,
    /// recursion-desired bit, recursion-available bit, 3 reserved bits,
    /// 4-bit response code.
    pub flags: u16,
    /// Number of entries in the question section.
    pub questions_count: u16,
    /// Number of records in the answer section.
    pub answers_count: u16,
    /// Number of records in the authority section.
    pub authority_count: u16,
    /// Number of records in the additional section.
    pub additional_count: u16,
}

/// The 12 bytes of a header on the wire: six big-endian 16-bit fields in
/// declaration order.
pub open spec fn spec_header_bytes(h: DNSHeader) -> Seq<u8> {
    be16_bytes(h.query_id) + be16_bytes(h.flags) + be16_bytes(h.questions_count) + be16_bytes(
        h.answers_count,
    ) + be16_bytes(h.authority_count) + be16_bytes(h.additional_count)
}

/// The header read off the first 12 bytes of a buffer, or `TruncatedHeader`
/// when fewer than 12 bytes are there.
pub open spec fn spec_parse_header(buf: Seq<u8>) -> Result<DNSHeader, DnsError> {
    if buf.len() < 12 {
        Err(DnsError::TruncatedHeader)
    } else {
        Ok(
            DNSHeader {
                query_id: be16(buf[0], buf[1]),
                flags: be16(buf[2], buf[3]),
                questions_count: be16(buf[4], buf[5]),
                answers_count: be16(buf[6], buf[7]),
                authority_count: be16(buf[8], buf[9]),
                additional_count: be16(buf[10], buf[11]),
            },
        )
    }
}

/// The query/response bit of a flag word (bit 15).
pub open spec fn spec_qr_bit(flags: u16) -> u16 {
    (flags / 0x8000 % 2) as u16
}

/// The 4-bit opcode of a flag word (bits 11 to 14).
pub open spec fn spec_opcode(flags: u16) -> u16 {
    (flags / 0x800 % 16) as u16
}

/// The authoritative-answer bit of a flag word (bit 10).
pub open spec fn spec_authoritative(flags: u16) -> u16 {
    (flags / 0x400 % 2) as u16
}

/// The truncation bit of a flag word (bit 9).
pub open spec fn spec_truncated(flags: u16) -> u16 {
    (flags / 0x200 % 2) as u16
}

/// The recursion-desired bit of a flag word (bit 8).
pub open spec fn spec_recursion_desired(flags: u16) -> u16 {
    (flags / 0x100 % 2) as u16
}

/// The recursion-available bit of a flag word (bit 7).
pub open spec fn spec_recursion_available(flags: u16) -> u16 {
    (flags / 0x80 % 2) as u16
}

/// The 3 reserved bits of a flag word (bits 4 to 6).
pub open spec fn spec_reserved(flags: u16) -> u16 {
    (flags / 0x10 % 8) as u16
}

/// The 4-bit response code of a flag word (bits 0 to 3).
pub open spec fn spec_response_code(flags: u16) -> u16 {
    (flags % 16) as u16
}

/// Relies on `rand::random`: draws a pseudorandom 16-bit transaction id;
/// nothing can be promised of the value.
#[verifier::external_body]
fn random_u16() -> u16 {
    rand::random::<u16>()
}

impl DNSHeader {
    /// Reads the first 12 bytes of a response as six big-endian 16-bit
    /// fields; fails with `TruncatedHeader` when fewer are available.
    pub fn parse_header_from_response(response: &Vec<u8>) -> (r: Result<DNSHeader, DnsError>)
        ensures
            r == spec_parse_header(response@),
    {
        if response.len() < 12 {
            return Err(DnsError::TruncatedHeader);
        }
        Ok(
            DNSHeader {
                query_id: read_be16(response, 0),
                flags: read_be16(response, 2),
                questions_count: read_be16(response, 4),
                answers_count: read_be16(response, 6),
                authority_count: read_be16(response, 8),
                additional_count: read_be16(response, 10),
            },
        )
    }

    /// Serializes the header: each 16-bit field written in network byte
    /// order, most significant byte first.
    pub fn prepare(&self) -> (r: Vec<u8>)
        ensures
            r@ == spec_header_bytes(*self),
            r@.len() == 12,
    {
        let mut out: Vec<u8> = Vec::new();
        push_be16(&mut out, self.query_id);
        push_be16(&mut out, self.flags);
        push_be16(&mut out, self.questions_count);
        push_be16(&mut out, self.answers_count);
        push_be16(&mut out, self.authority_count);
        push_be16(&mut out, self.additional_count);
        proof {
            assert(out@ =~= spec_header_bytes(*self));
        }
        out
    }

    /// A fresh query header: pseudorandom transaction id, flags set to
    /// "standard query, recursion desired", the supplied question count,
    /// and zero for the other three counts.
    pub fn create_query_header(questions_count: u16) -> (r: DNSHeader)
        ensures
            r.flags == QUERY_FLAGS,
            r.questions_count == questions_count,
            r.answers_count == 0,
            r.authority_count == 0,
            r.additional_count == 0,
    {
        DNSHeader {
            query_id: random_u16(),
            flags: QUERY_FLAGS,
            questions_count,
            answers_count: 0,
            authority_count: 0,
            additional_count: 0,
        }
    }

    /// The query/response bit of this header's flags.
    pub fn qr_bit(&self) -> (r: u16)
        ensures
            r == spec_qr_bit(self.flags),
    {
        self.flags / 0x8000 % 2
    }

    /// The 4-bit opcode of this header's flags.
    pub fn opcode(&self) -> (r: u16)
        ensures
            r == spec_opcode(self.flags),
    {
        self.flags / 0x800 % 16
    }

    /// The authoritative-answer bit of this header's flags.
    pub fn authoritative(&self) -> (r: u16)
        ensures
            r == spec_authoritative(self.flags),
    {
        self.flags / 0x400 % 2
    }

    /// The truncation bit of this header's flags.
    pub fn truncated(&self) -> (r: u16)
        ensures
            r == spec_truncated(self.flags),
    {
        self.flags / 0x200 % 2
    }

    /// The recursion-desired bit of this header's flags.
    pub fn recursion_desired(&self) -> (r: u16)
        ensures
            r == spec_recursion_desired(self.flags),
    {
        self.flags / 0x100 % 2
    }

    /// The recursion-available bit of this header's flags.
    pub fn recursion_available(&self) -> (r: u16)
        ensures
            r == spec_recursion_available(self.flags),
    {
        self.flags / 0x80 % 2
    }

    /// The 3 reserved bits of this header's flags.
    pub fn reserved(&self) -> (r: u16)
        ensures
            r == spec_reserved(self.flags),
    {
        self.flags / 0x10 % 8
    }

    /// The 4-bit response code of this header's flags.
    pub fn response_code(&self) -> (r: u16)
        ensures
            r == spec_response_code(self.flags),
    {
        self.flags % 16
    }
}

/// Serializing a header and reading it back gives the header itself: the
/// twelve bytes carry every field exactly.
pub proof fn lemma_header_round_trip(h: DNSHeader)
    ensures
        spec_parse_header(spec_header_bytes(h)) == Ok::<DNSHeader, DnsError>(h),
{
    let b = spec_header_bytes(h);
    assert(b.len() == 12);
    assert(spec_parse_header(b).unwrap() == h);
}

} // verus!
