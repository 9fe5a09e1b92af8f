//! The question codec: a single question entry, its name stored as a
//! literal label sequence, followed by 16-bit type and class codes.
use vstd::prelude::*;

use crate::DnsError;
use crate::bytes::be16;
use crate::bytes::be16_bytes;
use crate::bytes::push_be16;
use crate::bytes::read_be16;
use crate::bytes::spec_find_byte;
use crate::bytes::find_byte_from;
use crate::bytes::lemma_find_byte;
use crate::bytes::copy_range;
use crate::name::spec_encode_name;
use crate::name::spec_name_ok;
use crate::name::domain_to_labels;
use vstd::string::StringSliceAdditionalSpecFns;

verus! {

/// A single entry of the question section.
#[derive(Clone, Debug, PartialEq, Eq)]
pub struct DNSQuestion {
    /// The name asked about, as a label sequence closed by a zero byte.
    pub query_name: Vec<u8>,
    /// Type of resource queried (1 = A, 2 = NS, 5 = CNAME, 15 = MX, ...).
    pub query_type: u16,
    /// Class of the query; 1 = Internet.
    pub query_class: u16,
}

/// The mathematical image of a question: its name bytes and 16-bit codes.
#[verifier::ext_equal]
pub struct QuestionView {
    pub query_name: Seq<u8>,
    pub query_type: u16,
    pub query_class: u16,
}

impl View for DNSQuestion {
    type V = QuestionView;

    open spec fn view(&self) -> QuestionView {
        QuestionView {
            query_name: self.query_name@,
            query_type: self.query_type,
            query_class: self.query_class,
        }
    }
}

/// The wire bytes of a question: the name's label sequence, then type and
/// class as big-endian 16-bit fields.
pub open spec fn spec_question_bytes(q: QuestionView) -> Seq<u8> {
    q.query_name + be16_bytes(q.query_type) + be16_bytes(q.query_class)
}

/// Parsing the question at `start`: scan forward for the name's zero
/// terminator (the question section carries no compression), then read type
/// and class just after it. On success, the bytes consumed and the question;
/// `TruncatedQuestion` when the terminator or the trailing fields are
/// missing.
pub open spec fn spec_parse_question(buf: Seq<u8>, start: int) -> Result<
    (int, QuestionView),
    DnsError,
> {
    match spec_find_byte(buf, 0, start) {
        None => Err(DnsError::TruncatedQuestion),
        Some(end) => if end + 5 > buf.len() {
            Err(DnsError::TruncatedQuestion)
        } else {
            Ok(
                (
                    end - start + 5,
                    QuestionView {
                        query_name: buf.subrange(start, end + 1),
                        query_type: be16(buf[end + 1], buf[end + 2]),
                        query_class: be16(buf[end + 3], buf[end + 4]),
                    },
                ),
            )
        },
    }
}

impl DNSQuestion {
    /// A question for `domain` with the given type code, class Internet;
    /// the name is encoded by the domain-name codec and fails the same way.
    pub fn create_question(domain: &str, query_type: u16) -> (r: Result<DNSQuestion, DnsError>)
        ensures
            ({
                let s = domain.spec_bytes();
                match r {
                    Ok(q) => spec_name_ok(s) && q@.query_name == spec_encode_name(s)
                        && q@.query_type == query_type && q@.query_class == 1,
                    Err(e) => !spec_name_ok(s) && e == DnsError::InvalidName,
                }
            }),
    {
        match domain_to_labels(domain) {
            Ok(name) => Ok(DNSQuestion { query_name: name, query_type, query_class: 1 }),
            Err(e) => Err(e),
        }
    }

    /// Scans from `question_start` for the name's zero terminator, then
    /// reads type and class; returns the bytes consumed and the question,
    /// or `TruncatedQuestion` when either runs past the buffer.
    pub fn parse_question_from_response(response: &Vec<u8>, question_start: usize) -> (r: Result<
        (usize, DNSQuestion),
        DnsError,
    >)
        ensures
            ({
                match (r, spec_parse_question(response@, question_start as int)) {
                    (Ok((used, q)), Ok((sused, sq))) => used as int == sused && q@ == sq,
                    (Err(a), Err(b)) => a == b,
                    _ => false,
                }
            }),
    {
        proof {
            lemma_find_byte(response@, 0, question_start as int);
        }
        match find_byte_from(response, 0, question_start) {
            None => Err(DnsError::TruncatedQuestion),
            Some(end) => {
                let n = response.len();
                if n - (end + 1) < 4 {
                    return Err(DnsError::TruncatedQuestion);
                }
                let mut name: Vec<u8> = Vec::new();
                copy_range(response, question_start, end + 1, &mut name);
                let q = DNSQuestion {
                    query_name: name,
                    query_type: read_be16(response, end + 1),
                    query_class: read_be16(response, end + 3),
                };
                Ok((end - question_start + 5, q))
            },
        }
    }

    /// Serializes the question: name bytes, then type and class in network
    /// byte order.
    pub fn prepare(&self) -> (r: Vec<u8>)
        ensures
            r@ == spec_question_bytes(self@),
    {
        let mut out: Vec<u8> = Vec::new();
        copy_range(&self.query_name, 0, self.query_name.len(), &mut out);
        push_be16(&mut out, self.query_type);
        push_be16(&mut out, self.query_class);
        proof {
            assert(self.query_name@.subrange(0, self.query_name@.len() as int) =~= self.query_name@);
            assert(out@ =~= spec_question_bytes(self@));
        }
        out
    }
}

/// The 16-bit code of a query-type mnemonic; an unknown mnemonic maps to
/// the documented default 0 rather than failing.
pub open spec fn spec_query_type_code(s: Seq<u8>) -> u16 {
    if s == seq![65u8] {  // A
        1
    } else if s == seq![78u8, 83u8] {  // NS
        2
    } else if s == seq![77u8, 68u8] {  // MD
        3
    } else if s == seq![77u8, 70u8] {  // MF
        4
    } else if s == seq![67u8, 78u8, 65u8, 77u8, 69u8] {  // CNAME
        5
    } else if s == seq![83u8, 79u8, 65u8] {  // SOA
        6
    } else if s == seq![77u8, 66u8] {  // MB
        7
    } else if s == seq![77u8, 71u8] {  // MG
        8
    } else if s == seq![77u8, 82u8] {  // MR
        9
    } else if s == seq![78u8, 85u8, 76u8, 76u8] {  // NULL
        10
    } else if s == seq![87u8, 75u8, 83u8] {  // WKS
        11
    } else if s == seq![80u8, 84u8, 82u8] {  // PTR
        12
    } else if s == seq![72u8, 73u8, 78u8, 70u8, 79u8] {  // HINFO
        13
    } else if s == seq![77u8, 73u8, 78u8, 70u8, 79u8] {  // MINFO
        14
    } else if s == seq![77u8, 88u8] {  // MX
        15
    } else if s == seq![84u8, 88u8, 84u8] {  // TXT
        16
    } else {
        0
    }
}

/// Whether `b` is exactly the 1-byte sequence `c0`.
fn match1(b: &[u8], c0: u8) -> (r: bool)
    ensures
        r == (b@ == seq![c0]),
{
    let r = b.len() == 1 && b[0] == c0;
    proof {
        if r {
            assert(b@ =~= seq![c0]);
        }
    }
    r
}

/// Whether `b` is exactly the 2-byte sequence `c0 c1`.
fn match2(b: &[u8], c0: u8, c1: u8) -> (r: bool)
    ensures
        r == (b@ == seq![c0, c1]),
{
    let r = b.len() == 2 && b[0] == c0 && b[1] == c1;
    proof {
        if r {
            assert(b@ =~= seq![c0, c1]);
        }
    }
    r
}

/// Whether `b` is exactly the 3-byte sequence `c0 c1 c2`.
fn match3(b: &[u8], c0: u8, c1: u8, c2: u8) -> (r: bool)
    ensures
        r == (b@ == seq![c0, c1, c2]),
{
    let r = b.len() == 3 && b[0] == c0 && b[1] == c1 && b[2] == c2;
    proof {
        if r {
            assert(b@ =~= seq![c0, c1, c2]);
        }
    }
    r
}

/// Whether `b` is exactly the 4-byte sequence `c0 c1 c2 c3`.
fn match4(b: &[u8], c0: u8, c1: u8, c2: u8, c3: u8) -> (r: bool)
    ensures
        r == (b@ == seq![c0, c1, c2, c3]),
{
    let r = b.len() == 4 && b[0] == c0 && b[1] == c1 && b[2] == c2 && b[3] == c3;
    proof {
        if r {
            assert(b@ =~= seq![c0, c1, c2, c3]);
        }
    }
    r
}

/// Whether `b` is exactly the 5-byte sequence `c0 c1 c2 c3 c4`.
fn match5(b: &[u8], c0: u8, c1: u8, c2: u8, c3: u8, c4: u8) -> (r: bool)
    ensures
        r == (b@ == seq![c0, c1, c2, c3, c4]),
{
    let r = b.len() == 5 && b[0] == c0 && b[1] == c1 && b[2] == c2 && b[3] == c3 && b[4] == c4;
    proof {
        if r {
            assert(b@ =~= seq![c0, c1, c2, c3, c4]);
        }
    }
    r
}

/// Maps a query-type mnemonic such as `"A"`, `"CNAME"` or `"MX"` to its
/// 16-bit code; an unknown mnemonic maps to 0.
pub fn parse_query_type(query_type: &str) -> (code: u16)
    ensures
        code == spec_query_type_code(query_type.spec_bytes()),
{
    let b = query_type.as_bytes();
    if match1(b, 65) {  // A
        1
    } else if match2(b, 78, 83) {  // NS
        2
    } else if match2(b, 77, 68) {  // MD
        3
    } else if match2(b, 77, 70) {  // MF
        4
    } else if match5(b, 67, 78, 65, 77, 69) {  // CNAME
        5
    } else if match3(b, 83, 79, 65) {  // SOA
        6
    } else if match2(b, 77, 66) {  // MB
        7
    } else if match2(b, 77, 71) {  // MG
        8
    } else if match2(b, 77, 82) {  // MR
        9
    } else if match4(b, 78, 85, 76, 76) {  // NULL
        10
    } else if match3(b, 87, 75, 83) {  // WKS
        11
    } else if match3(b, 80, 84, 82) {  // PTR
        12
    } else if match5(b, 72, 73, 78, 70, 79) {  // HINFO
        13
    } else if match5(b, 77, 73, 78, 70, 79) {  // MINFO
        14
    } else if match2(b, 77, 88) {  // MX
        15
    } else if match3(b, 84, 88, 84) {  // TXT
        16
    } else {
        0
    }
}

} // verus!
