//! The resource-record codec: an answer/authority/additional entry of name,
//! type, class, TTL and a length-prefixed opaque data blob, the name read
//! through the decompressor.
use vstd::prelude::*;

use crate::DnsError;
use crate::bytes::be16;
use crate::bytes::be16_bytes;
use crate::bytes::be32;
use crate::bytes::be32_bytes;
use crate::bytes::i32_of_u32;
use crate::bytes::u32_of_i32;
use crate::bytes::push_be16;
use crate::bytes::push_be32;
use crate::bytes::read_be16;
use crate::bytes::read_be32;
use crate::bytes::i32_to_u32;
use crate::bytes::u32_to_i32;
use crate::bytes::copy_range;
use crate::decompress::spec_decompress;
use crate::decompress::dns_decompression;
use crate::decompress::lemma_decompress_bounds;

verus! {

/// A record of the answer, authority or additional section.
#[derive(Clone, Debug, PartialEq, Eq)]
pub struct DNSResourceRecord {
    /// The record's name as an expanded (uncompressed) label sequence.
    pub query_name: Vec<u8>,
    /// Type of the record, as in the question section.
    pub query_type: u16,
    /// Class of the record; 1 = Internet.
    pub query_class: u16,
    /// Seconds the record may be cached; may be 0 or negative.
    pub record_ttl: i32,
    /// Length of the data field.
    pub rdata_length: u16,
    /// The opaque data; its meaning depends on the record type.
    pub rdata: Vec<u8>,
}

/// The mathematical image of a resource record.
#[verifier::ext_equal]
pub struct RecordView {
    pub query_name: Seq<u8>,
    pub query_type: u16,
    pub query_class: u16,
    pub record_ttl: i32,
    pub rdata_length: u16,
    pub rdata: Seq<u8>,
}

impl View for DNSResourceRecord {
    type V = RecordView;

    open spec fn view(&self) -> RecordView {
        RecordView {
            query_name: self.query_name@,
            query_type: self.query_type,
            query_class: self.query_class,
            record_ttl: self.record_ttl,
            rdata_length: self.rdata_length,
            rdata: self.rdata@,
        }
    }
}

/// The wire bytes of a record whose name is written literally: name, type,
/// class, TTL (big-endian, two's complement), data length, raw data.
pub open spec fn spec_record_bytes(r: RecordView) -> Seq<u8> {
    r.query_name + be16_bytes(r.query_type) + be16_bytes(r.query_class) + be32_bytes(
        u32_of_i32(r.record_ttl),
    ) + be16_bytes(r.rdata_length) + r.rdata
}

/// Parsing the record at `start`: the name decompressor first, then type,
/// class, TTL and data length in the 10 bytes after the name, then exactly
/// `rdata_length` data bytes. On success, the bytes consumed from `start`
/// and the record; `TruncatedRecord` when a fixed field or the data slice
/// runs past the buffer end.
pub open spec fn spec_parse_rr(buf: Seq<u8>, start: int) -> Result<(int, RecordView), DnsError> {
    match spec_decompress(buf, start, buf.len() as nat) {
        Err(e) => Err(e),
        Ok((name_end, name)) => if name_end + 11 > buf.len() {
            Err(DnsError::TruncatedRecord)
        } else {
            let rdlen = be16(buf[name_end + 9], buf[name_end + 10]);
            if name_end + 11 + rdlen > buf.len() {
                Err(DnsError::TruncatedRecord)
            } else {
                Ok(
                    (
                        name_end - start + 11 + rdlen,
                        RecordView {
                            query_name: name,
                            query_type: be16(buf[name_end + 1], buf[name_end + 2]),
                            query_class: be16(buf[name_end + 3], buf[name_end + 4]),
                            record_ttl: i32_of_u32(
                                be32(
                                    buf[name_end + 5],
                                    buf[name_end + 6],
                                    buf[name_end + 7],
                                    buf[name_end + 8],
                                ),
                            ),
                            rdata_length: rdlen,
                            rdata: buf.subrange(name_end + 11, name_end + 11 + rdlen),
                        },
                    ),
                )
            }
        },
    }
}

impl DNSResourceRecord {
    /// Decompresses the record's name at `answer_start`, then reads the
    /// fixed fields and the data blob after it; returns the bytes consumed
    /// and the record, or the first failure.
    pub fn parse_rr_from_response(response: &Vec<u8>, answer_start: usize) -> (r: Result<
        (usize, DNSResourceRecord),
        DnsError,
    >)
        ensures
            ({
                match (r, spec_parse_rr(response@, answer_start as int)) {
                    (Ok((used, rec)), Ok((sused, srec))) => used as int == sused && rec@ == srec,
                    (Err(a), Err(b)) => a == b,
                    _ => false,
                }
            }),
    {
        match dns_decompression(response, answer_start) {
            Err(e) => Err(e),
            Ok((name_end, name)) => {
                proof {
                    lemma_decompress_bounds(response@, answer_start as int, response@.len() as nat);
                }
                let n = response.len();
                if n - name_end < 11 {
                    return Err(DnsError::TruncatedRecord);
                }
                let rdlen = read_be16(response, name_end + 9);
                if n - (name_end + 11) < rdlen as usize {
                    return Err(DnsError::TruncatedRecord);
                }
                let mut rdata: Vec<u8> = Vec::new();
                copy_range(response, name_end + 11, name_end + 11 + rdlen as usize, &mut rdata);
                let rec = DNSResourceRecord {
                    query_name: name,
                    query_type: read_be16(response, name_end + 1),
                    query_class: read_be16(response, name_end + 3),
                    record_ttl: u32_to_i32(read_be32(response, name_end + 5)),
                    rdata_length: rdlen,
                    rdata,
                };
                Ok((name_end - answer_start + 11 + rdlen as usize, rec))
            },
        }
    }

    /// Serializes the record with its name written literally: name bytes,
    /// type, class, TTL, data length, then the raw data.
    pub fn prepare(&self) -> (r: Vec<u8>)
        ensures
            r@ == spec_record_bytes(self@),
    {
        let mut out: Vec<u8> = Vec::new();
        copy_range(&self.query_name, 0, self.query_name.len(), &mut out);
        push_be16(&mut out, self.query_type);
        push_be16(&mut out, self.query_class);
        push_be32(&mut out, i32_to_u32(self.record_ttl));
        push_be16(&mut out, self.rdata_length);
        copy_range(&self.rdata, 0, self.rdata.len(), &mut out);
        proof {
            assert(self.query_name@.subrange(0, self.query_name@.len() as int)
                =~= self.query_name@);
            assert(self.rdata@.subrange(0, self.rdata@.len() as int) =~= self.rdata@);
            assert(out@ =~= spec_record_bytes(self@));
        }
        out
    }
}

} // verus!
