//! The message assembler and parser: a whole DNS message as header,
//! question section and answer section, serialized by concatenation and
//! parsed by advancing a cursor through the shared buffer.
use vstd::prelude::*;

use crate::DnsError;
use crate::header::DNSHeader;
use crate::header::QUERY_FLAGS;
use crate::header::spec_header_bytes;
use crate::header::spec_parse_header;
use crate::question::DNSQuestion;
use crate::question::QuestionView;
use crate::question::spec_question_bytes;
use crate::question::spec_parse_question;
use crate::question::spec_query_type_code;
use crate::question::parse_query_type;
use crate::record::DNSResourceRecord;
use crate::record::RecordView;
use crate::record::spec_record_bytes;
use crate::record::spec_parse_rr;
use crate::name::spec_name_ok;
use crate::name::spec_encode_name;
use crate::bytes::lemma_find_byte;
use crate::bytes::lemma_find_byte_at;
use crate::bytes::be16_bytes;
use crate::bytes::lemma_be16_round_trip;
use crate::bytes::be32_bytes;
use crate::bytes::lemma_be32_round_trip;
use crate::bytes::u32_of_i32;
use crate::bytes::lemma_i32_round_trip;
use crate::decompress::wf_labels;
use crate::decompress::lemma_decompress_literal;
use vstd::string::StringSliceAdditionalSpecFns;

verus! {

/// A whole DNS message: header, question section, answer section. The
/// authority and additional sections are neither parsed nor emitted.
#[derive(Clone, Debug, PartialEq, Eq)]
pub struct DNSPacket {
    /// The fixed header; its counts say how many entries follow.
    pub header: DNSHeader,
    /// The question section, in order.
    pub questions: Vec<DNSQuestion>,
    /// The answer section, in order.
    pub resource_records: Vec<DNSResourceRecord>,
}

/// The mathematical image of a message.
#[verifier::ext_equal]
pub struct PacketView {
    pub header: DNSHeader,
    pub questions: Seq<QuestionView>,
    pub resource_records: Seq<RecordView>,
}

/// The images of a sequence of questions.
pub open spec fn question_views(qs: Seq<DNSQuestion>) -> Seq<QuestionView> {
    qs.map_values(|q: DNSQuestion| q@)
}

/// The images of a sequence of records.
pub open spec fn record_views(rs: Seq<DNSResourceRecord>) -> Seq<RecordView> {
    rs.map_values(|r: DNSResourceRecord| r@)
}

impl View for DNSPacket {
    type V = PacketView;

    open spec fn view(&self) -> PacketView {
        PacketView {
            header: self.header,
            questions: question_views(self.questions@),
            resource_records: record_views(self.resource_records@),
        }
    }
}

/// The concatenated wire bytes of a question section.
pub open spec fn spec_questions_bytes(qs: Seq<QuestionView>) -> Seq<u8>
    decreases qs.len(),
{
    if qs.len() == 0 {
        Seq::empty()
    } else {
        spec_question_bytes(qs[0]) + spec_questions_bytes(qs.drop_first())
    }
}

/// The concatenated wire bytes of an answer section.
pub open spec fn spec_records_bytes(rs: Seq<RecordView>) -> Seq<u8>
    decreases rs.len(),
{
    if rs.len() == 0 {
        Seq::empty()
    } else {
        spec_record_bytes(rs[0]) + spec_records_bytes(rs.drop_first())
    }
}

/// The wire bytes of a whole message: header, questions, records, in order.
pub open spec fn spec_packet_bytes(p: PacketView) -> Seq<u8> {
    spec_header_bytes(p.header) + spec_questions_bytes(p.questions) + spec_records_bytes(
        p.resource_records,
    )
}

proof fn lemma_questions_bytes_push(qs: Seq<QuestionView>, q: QuestionView)
    ensures
        spec_questions_bytes(qs.push(q)) == spec_questions_bytes(qs) + spec_question_bytes(q),
    decreases qs.len(),
{
    reveal_with_fuel(spec_questions_bytes, 2);
    if qs.len() == 0 {
        assert(qs.push(q)[0] == q);
        assert(qs.push(q).drop_first() =~= Seq::<QuestionView>::empty());
        assert(spec_questions_bytes(qs.push(q)) =~= spec_questions_bytes(qs) + spec_question_bytes(
            q,
        ));
    } else {
        lemma_questions_bytes_push(qs.drop_first(), q);
        assert(qs.push(q).drop_first() =~= qs.drop_first().push(q));
        assert(qs.push(q)[0] == qs[0]);
        assert(spec_questions_bytes(qs.push(q)) =~= spec_questions_bytes(qs) + spec_question_bytes(
            q,
        ));
    }
}

proof fn lemma_records_bytes_push(rs: Seq<RecordView>, r: RecordView)
    ensures
        spec_records_bytes(rs.push(r)) == spec_records_bytes(rs) + spec_record_bytes(r),
    decreases rs.len(),
{
    reveal_with_fuel(spec_records_bytes, 2);
    if rs.len() == 0 {
        assert(rs.push(r)[0] == r);
        assert(rs.push(r).drop_first() =~= Seq::<RecordView>::empty());
        assert(spec_records_bytes(rs.push(r)) =~= spec_records_bytes(rs) + spec_record_bytes(r));
    } else {
        lemma_records_bytes_push(rs.drop_first(), r);
        assert(rs.push(r).drop_first() =~= rs.drop_first().push(r));
        assert(rs.push(r)[0] == rs[0]);
        assert(spec_records_bytes(rs.push(r)) =~= spec_records_bytes(rs) + spec_record_bytes(r));
    }
}

/// Parsing `n` questions in a row from `pos`: on success, the position just
/// past them and the questions in order; otherwise the first failure.
pub open spec fn spec_parse_questions(buf: Seq<u8>, pos: int, n: nat) -> Result<
    (int, Seq<QuestionView>),
    DnsError,
>
    decreases n,
{
    if n == 0 {
        Ok((pos, Seq::empty()))
    } else {
        match spec_parse_question(buf, pos) {
            Err(e) => Err(e),
            Ok((used, q)) => match spec_parse_questions(buf, pos + used, (n - 1) as nat) {
                Err(e) => Err(e),
                Ok((endpos, qs)) => Ok((endpos, seq![q] + qs)),
            },
        }
    }
}

/// Parsing `n` resource records in a row from `pos`.
pub open spec fn spec_parse_records(buf: Seq<u8>, pos: int, n: nat) -> Result<
    (int, Seq<RecordView>),
    DnsError,
>
    decreases n,
{
    if n == 0 {
        Ok((pos, Seq::empty()))
    } else {
        match spec_parse_rr(buf, pos) {
            Err(e) => Err(e),
            Ok((used, r)) => match spec_parse_records(buf, pos + used, (n - 1) as nat) {
                Err(e) => Err(e),
                Ok((endpos, rs)) => Ok((endpos, seq![r] + rs)),
            },
        }
    }
}

/// Parsing a whole message: the header first, then exactly as many
/// questions and answer records as its counts declare, the cursor advancing
/// by each entry's consumed length; the first failure is the message's.
pub open spec fn spec_parse_message(buf: Seq<u8>) -> Result<PacketView, DnsError> {
    match spec_parse_header(buf) {
        Err(e) => Err(e),
        Ok(h) => match spec_parse_questions(buf, 12, h.questions_count as nat) {
            Err(e) => Err(e),
            Ok((pos, qs)) => match spec_parse_records(buf, pos, h.answers_count as nat) {
                Err(e) => Err(e),
                Ok((endpos, rs)) => Ok(
                    PacketView { header: h, questions: qs, resource_records: rs },
                ),
            },
        },
    }
}

/// A successfully parsed question consumes at least its 5 fixed bytes and
/// stays inside the buffer.
proof fn lemma_parse_question_advance(buf: Seq<u8>, pos: int)
    requires
        0 <= pos,
        spec_parse_question(buf, pos) is Ok,
    ensures
        ({
            let (used, q) = spec_parse_question(buf, pos).unwrap();
            5 <= used && pos + used <= buf.len()
        }),
{
    lemma_find_byte(buf, 0, pos);
}

/// A successfully parsed record consumes at least its 11 fixed bytes and
/// stays inside the buffer.
proof fn lemma_parse_rr_advance(buf: Seq<u8>, pos: int)
    requires
        0 <= pos,
        spec_parse_rr(buf, pos) is Ok,
    ensures
        ({
            let (used, r) = spec_parse_rr(buf, pos).unwrap();
            11 <= used && pos + used <= buf.len()
        }),
{
    crate::decompress::lemma_decompress_bounds(buf, pos, buf.len() as nat);
}

impl DNSPacket {
    /// A query message: one question per domain, all sharing the type named
    /// by `query_type`, under a fresh query header whose question count is
    /// the number of domains. Fails with `InvalidName` exactly when some
    /// domain cannot be encoded within the name length limits.
    pub fn create_query_packet(domains: Vec<&str>, query_type: &str) -> (r: Result<
        DNSPacket,
        DnsError,
    >)
        requires
            domains@.len() <= 0xFFFF,
        ensures
            ({
                match r {
                    Ok(p) => {
                        &&& p@.header.flags == QUERY_FLAGS
                        &&& p@.header.questions_count == domains@.len()
                        &&& p@.header.answers_count == 0
                        &&& p@.header.authority_count == 0
                        &&& p@.header.additional_count == 0
                        &&& p@.questions.len() == domains@.len()
                        &&& forall|i: int|
                            0 <= i < domains@.len() ==> {
                                let s = (#[trigger] domains@[i]).spec_bytes();
                                spec_name_ok(s) && p@.questions[i].query_name == spec_encode_name(
                                    s,
                                ) && p@.questions[i].query_type == spec_query_type_code(
                                    query_type.spec_bytes(),
                                ) && p@.questions[i].query_class == 1
                            }
                        &&& p@.resource_records.len() == 0
                    },
                    Err(e) => e == DnsError::InvalidName && exists|i: int|
                        0 <= i < domains@.len() && !spec_name_ok(
                            (#[trigger] domains@[i]).spec_bytes(),
                        ),
                }
            }),
    {
        let type_code = parse_query_type(query_type);
        let mut questions: Vec<DNSQuestion> = Vec::new();
        let mut i: usize = 0;
        while i < domains.len()
            invariant
                0 <= i <= domains@.len(),
                domains@.len() <= 0xFFFF,
                questions@.len() == i,
                type_code == spec_query_type_code(query_type.spec_bytes()),
                forall|k: int|
                    0 <= k < i ==> {
                        let s = (#[trigger] domains@[k]).spec_bytes();
                        spec_name_ok(s) && question_views(questions@)[k].query_name
                            == spec_encode_name(s) && question_views(questions@)[k].query_type
                            == type_code && question_views(questions@)[k].query_class == 1
                    },
            decreases domains@.len() - i,
        {
            match DNSQuestion::create_question(domains[i], type_code) {
                Ok(q) => {
                    questions.push(q);
                },
                Err(e) => {
                    return Err(e);
                },
            }
            i = i + 1;
        }
        let header = DNSHeader::create_query_header(domains.len() as u16);
        let packet = DNSPacket { header, questions, resource_records: Vec::new() };
        Ok(packet)
    }

    /// Parses a received buffer: the header, then exactly as many questions
    /// and answer records as the header's counts declare; returns the first
    /// failure of any sub-decoder.
    #[verifier::loop_isolation(false)]
    pub fn parse_response(response: Vec<u8>) -> (r: Result<DNSPacket, DnsError>)
        ensures
            ({
                match (r, spec_parse_message(response@)) {
                    (Ok(p), Ok(sp)) => p@ == sp,
                    (Err(a), Err(b)) => a == b,
                    _ => false,
                }
            }),
    {
        let header = match DNSHeader::parse_header_from_response(&response) {
            Ok(h) => h,
            Err(e) => {
                return Err(e);
            },
        };
        let total_q = header.questions_count;
        let total_a = header.answers_count;
        let resp_len = response.len();
        proof {
            assert(resp_len as int == response@.len());
        }
        let mut current_start: usize = 12;
        let mut questions: Vec<DNSQuestion> = Vec::new();
        proof {
            let t = spec_parse_questions(response@, 12, total_q as nat);
            if t is Ok {
                assert(question_views(questions@) + t.unwrap().1 =~= t.unwrap().1);
            }
        }
        let mut i: u16 = 0;
        while i < total_q
            invariant
                0 <= i <= total_q,
                questions@.len() == i,
                current_start <= usize::MAX,
                spec_parse_questions(response@, 12, total_q as nat) == (match spec_parse_questions(
                    response@,
                    current_start as int,
                    (total_q - i) as nat,
                ) {
                    Ok((p, rest)) => Ok::<(int, Seq<QuestionView>), DnsError>(
                        (p, question_views(questions@) + rest),
                    ),
                    Err(e) => Err::<(int, Seq<QuestionView>), DnsError>(e),
                }),
            decreases total_q - i,
        {
            match DNSQuestion::parse_question_from_response(&response, current_start) {
                Err(e) => {
                    return Err(e);
                },
                Ok((used, q)) => {
                    proof {
                        lemma_parse_question_advance(response@, current_start as int);
                        assert(question_views(questions@.push(q)) =~= question_views(
                            questions@,
                        ).push(q@));
                        let rest_pos = current_start + used;
                        let tail = spec_parse_questions(
                            response@,
                            rest_pos as int,
                            (total_q - i - 1) as nat,
                        );
                        if tail is Ok {
                            let (p2, rest2) = tail.unwrap();
                            assert(question_views(questions@) + (seq![q@] + rest2)
                                =~= question_views(questions@.push(q)) + rest2);
                        }
                    }
                    questions.push(q);
                    current_start = current_start + used;
                },
            }
            i = i + 1;
        }
        proof {
            assert(question_views(questions@) + Seq::<QuestionView>::empty() =~= question_views(
                questions@,
            ));
        }
        let ghost qpos = current_start as int;
        let mut records: Vec<DNSResourceRecord> = Vec::new();
        proof {
            let t = spec_parse_records(response@, qpos, total_a as nat);
            if t is Ok {
                assert(record_views(records@) + t.unwrap().1 =~= t.unwrap().1);
            }
        }
        let mut j: u16 = 0;
        while j < total_a
            invariant
                0 <= j <= total_a,
                records@.len() == j,
                current_start <= usize::MAX,
                spec_parse_questions(response@, 12, total_q as nat) == Ok::<
                    (int, Seq<QuestionView>),
                    DnsError,
                >((qpos, question_views(questions@))),
                spec_parse_records(response@, qpos, total_a as nat) == (match spec_parse_records(
                    response@,
                    current_start as int,
                    (total_a - j) as nat,
                ) {
                    Ok((p, rest)) => Ok::<(int, Seq<RecordView>), DnsError>(
                        (p, record_views(records@) + rest),
                    ),
                    Err(e) => Err::<(int, Seq<RecordView>), DnsError>(e),
                }),
            decreases total_a - j,
        {
            match DNSResourceRecord::parse_rr_from_response(&response, current_start) {
                Err(e) => {
                    return Err(e);
                },
                Ok((used, rec)) => {
                    proof {
                        lemma_parse_rr_advance(response@, current_start as int);
                        assert(record_views(records@.push(rec)) =~= record_views(records@).push(
                            rec@,
                        ));
                        let rest_pos = current_start + used;
                        let tail = spec_parse_records(
                            response@,
                            rest_pos as int,
                            (total_a - j - 1) as nat,
                        );
                        if tail is Ok {
                            let (p2, rest2) = tail.unwrap();
                            assert(record_views(records@) + (seq![rec@] + rest2) =~= record_views(
                                records@.push(rec),
                            ) + rest2);
                        }
                    }
                    records.push(rec);
                    current_start = current_start + used;
                },
            }
            j = j + 1;
        }
        proof {
            assert(record_views(records@) + Seq::<RecordView>::empty() =~= record_views(records@));
        }
        Ok(DNSPacket { header, questions, resource_records: records })
    }

    /// Serializes the message: header bytes, then each question's bytes,
    /// then each record's bytes, concatenated in order.
    pub fn prepare(&self) -> (r: Vec<u8>)
        ensures
            r@ == spec_packet_bytes(self@),
    {
        let mut out = self.header.prepare();
        let mut i: usize = 0;
        while i < self.questions.len()
            invariant
                0 <= i <= self.questions@.len(),
                out@ == spec_header_bytes(self.header) + spec_questions_bytes(
                    question_views(self.questions@).take(i as int),
                ),
            decreases self.questions@.len() - i,
        {
            let mut qb = self.questions[i].prepare();
            out.append(&mut qb);
            proof {
                let views = question_views(self.questions@);
                assert(views.take(i + 1) =~= views.take(i as int).push(views[i as int]));
                lemma_questions_bytes_push(views.take(i as int), views[i as int]);
                assert(out@ =~= spec_header_bytes(self.header) + spec_questions_bytes(
                    views.take(i + 1),
                ));
            }
            i = i + 1;
        }
        proof {
            let views = question_views(self.questions@);
            assert(views.take(views.len() as int) =~= views);
        }
        let mut j: usize = 0;
        while j < self.resource_records.len()
            invariant
                0 <= j <= self.resource_records@.len(),
                out@ == spec_header_bytes(self.header) + spec_questions_bytes(
                    question_views(self.questions@),
                ) + spec_records_bytes(record_views(self.resource_records@).take(j as int)),
            decreases self.resource_records@.len() - j,
        {
            let mut rb = self.resource_records[j].prepare();
            out.append(&mut rb);
            proof {
                let views = record_views(self.resource_records@);
                assert(views.take(j + 1) =~= views.take(j as int).push(views[j as int]));
                lemma_records_bytes_push(views.take(j as int), views[j as int]);
                assert(out@ =~= spec_header_bytes(self.header) + spec_questions_bytes(
                    question_views(self.questions@),
                ) + spec_records_bytes(views.take(j + 1)));
            }
            j = j + 1;
        }
        proof {
            let views = record_views(self.resource_records@);
            assert(views.take(views.len() as int) =~= views);
            assert(out@ =~= spec_packet_bytes(self@));
        }
        out
    }
}


/// A name as the question section stores it: at least one byte, its zero
/// terminator last and nowhere else, so the terminator scan finds exactly
/// the name.
pub open spec fn zero_terminated(name: Seq<u8>) -> bool {
    name.len() >= 1 && name[name.len() - 1] == 0 && (forall|i: int|
        0 <= i < name.len() - 1 ==> name[i] != 0)
}

/// A question the codec round-trips: its name scans back exactly.
pub open spec fn wf_question(q: QuestionView) -> bool {
    zero_terminated(q.query_name)
}

/// A record the codec round-trips: a literal (uncompressed) name and a
/// length field that equals the data's length.
pub open spec fn wf_record(r: RecordView) -> bool {
    wf_labels(r.query_name) && r.rdata_length == r.rdata.len()
}

/// A message the codec round-trips: counts that match the sections and
/// entries that round-trip themselves.
pub open spec fn wf_packet(p: PacketView) -> bool {
    &&& p.header.questions_count == p.questions.len()
    &&& p.header.answers_count == p.resource_records.len()
    &&& forall|i: int| 0 <= i < p.questions.len() ==> wf_question(#[trigger] p.questions[i])
    &&& forall|i: int|
        0 <= i < p.resource_records.len() ==> wf_record(#[trigger] p.resource_records[i])
}

/// Parsing at the start of a serialized question inside a larger buffer
/// recovers the question and consumes exactly its bytes.
proof fn lemma_parse_question_at(buf: Seq<u8>, start: int, q: QuestionView)
    requires
        wf_question(q),
        0 <= start,
        start + spec_question_bytes(q).len() <= buf.len(),
        buf.subrange(start, start + spec_question_bytes(q).len() as int) == spec_question_bytes(q),
    ensures
        spec_parse_question(buf, start) == Ok::<(int, QuestionView), DnsError>(
            (spec_question_bytes(q).len() as int, q),
        ),
{
    let qb = spec_question_bytes(q);
    let nl = q.query_name.len() as int;
    assert forall|k: int| 0 <= k < qb.len() implies buf[start + k] == qb[k] by {
        assert(buf.subrange(start, start + qb.len() as int)[k] == qb[k]);
    }
    let end = start + nl - 1;
    assert(qb[nl - 1] == q.query_name[nl - 1]);
    assert(buf[end] == 0);
    assert forall|j: int| start <= j < end implies buf[j] != 0 by {
        assert(buf[j] == qb[j - start]);
        assert(qb[j - start] == q.query_name[j - start]);
    }
    lemma_find_byte_at(buf, 0, start, end);
    assert(buf.subrange(start, end + 1) =~= q.query_name);
    assert(qb[nl] == be16_bytes(q.query_type)[0]);
    assert(qb[nl + 1] == be16_bytes(q.query_type)[1]);
    assert(qb[nl + 2] == be16_bytes(q.query_class)[0]);
    assert(qb[nl + 3] == be16_bytes(q.query_class)[1]);
    assert(buf[start + nl] == qb[nl]);
    assert(buf[start + (nl + 1)] == qb[nl + 1]);
    assert(buf[start + (nl + 2)] == qb[nl + 2]);
    assert(buf[start + (nl + 3)] == qb[nl + 3]);
    lemma_be16_round_trip(q.query_type);
    lemma_be16_round_trip(q.query_class);
    assert(spec_parse_question(buf, start).unwrap().1 =~= q);
}

/// Parsing at the start of a serialized record with a literal name inside a
/// larger buffer recovers the record and consumes exactly its bytes.
proof fn lemma_parse_rr_at(buf: Seq<u8>, start: int, r: RecordView)
    requires
        wf_record(r),
        0 <= start,
        start + spec_record_bytes(r).len() <= buf.len(),
        buf.subrange(start, start + spec_record_bytes(r).len() as int) == spec_record_bytes(r),
    ensures
        spec_parse_rr(buf, start) == Ok::<(int, RecordView), DnsError>(
            (spec_record_bytes(r).len() as int, r),
        ),
{
    let rb = spec_record_bytes(r);
    let nl = r.query_name.len() as int;
    assert forall|k: int| 0 <= k < rb.len() implies buf[start + k] == rb[k] by {
        assert(buf.subrange(start, start + rb.len() as int)[k] == rb[k]);
    }
    assert(buf.subrange(start, start + nl) =~= r.query_name);
    lemma_decompress_literal(buf, start, r.query_name, buf.len() as nat);
    let name_end = start + nl - 1;
    assert(rb[nl] == be16_bytes(r.query_type)[0]);
    assert(rb[nl + 1] == be16_bytes(r.query_type)[1]);
    assert(rb[nl + 2] == be16_bytes(r.query_class)[0]);
    assert(rb[nl + 3] == be16_bytes(r.query_class)[1]);
    assert(rb[nl + 4] == be32_bytes(u32_of_i32(r.record_ttl))[0]);
    assert(rb[nl + 5] == be32_bytes(u32_of_i32(r.record_ttl))[1]);
    assert(rb[nl + 6] == be32_bytes(u32_of_i32(r.record_ttl))[2]);
    assert(rb[nl + 7] == be32_bytes(u32_of_i32(r.record_ttl))[3]);
    assert(rb[nl + 8] == be16_bytes(r.rdata_length)[0]);
    assert(rb[nl + 9] == be16_bytes(r.rdata_length)[1]);
    assert(buf[start + nl] == rb[nl]);
    assert(buf[start + (nl + 1)] == rb[nl + 1]);
    assert(buf[start + (nl + 2)] == rb[nl + 2]);
    assert(buf[start + (nl + 3)] == rb[nl + 3]);
    assert(buf[start + (nl + 4)] == rb[nl + 4]);
    assert(buf[start + (nl + 5)] == rb[nl + 5]);
    assert(buf[start + (nl + 6)] == rb[nl + 6]);
    assert(buf[start + (nl + 7)] == rb[nl + 7]);
    assert(buf[start + (nl + 8)] == rb[nl + 8]);
    assert(buf[start + (nl + 9)] == rb[nl + 9]);
    lemma_be16_round_trip(r.query_type);
    lemma_be16_round_trip(r.query_class);
    lemma_be32_round_trip(u32_of_i32(r.record_ttl));
    lemma_i32_round_trip(r.record_ttl);
    lemma_be16_round_trip(r.rdata_length);
    assert forall|k: int|
        0 <= k < r.rdata.len() implies buf.subrange(
        name_end + 11,
        name_end + 11 + r.rdata_length,
    )[k] == r.rdata[k] by {
        assert(rb[nl + 10 + k] == r.rdata[k]);
        assert(buf[start + (nl + 10 + k)] == rb[nl + 10 + k]);
    }
    assert(buf.subrange(name_end + 11, name_end + 11 + r.rdata_length) =~= r.rdata);
    assert(spec_parse_rr(buf, start).unwrap().1 =~= r);
}

/// Parsing a run of serialized questions recovers them all in order.
proof fn lemma_parse_questions_at(buf: Seq<u8>, start: int, qs: Seq<QuestionView>)
    requires
        forall|i: int| 0 <= i < qs.len() ==> wf_question(#[trigger] qs[i]),
        0 <= start,
        start + spec_questions_bytes(qs).len() <= buf.len(),
        buf.subrange(start, start + spec_questions_bytes(qs).len() as int) == spec_questions_bytes(
            qs,
        ),
    ensures
        spec_parse_questions(buf, start, qs.len()) == Ok::<(int, Seq<QuestionView>), DnsError>(
            (start + spec_questions_bytes(qs).len() as int, qs),
        ),
    decreases qs.len(),
{
    if qs.len() == 0 {
        assert(qs =~= Seq::<QuestionView>::empty());
    } else {
        let q0 = qs[0];
        let qb0 = spec_question_bytes(q0);
        let rest = qs.drop_first();
        let restb = spec_questions_bytes(rest);
        assert forall|k: int| 0 <= k < qb0.len() + restb.len() implies buf[start + k] == (qb0
            + restb)[k] by {
            assert(buf.subrange(start, start + spec_questions_bytes(qs).len() as int)[k] == (qb0
                + restb)[k]);
        }
        assert(buf.subrange(start, start + qb0.len() as int) =~= qb0);
        lemma_parse_question_at(buf, start, q0);
        assert forall|i: int| 0 <= i < rest.len() implies wf_question(#[trigger] rest[i]) by {
            assert(rest[i] == qs[i + 1]);
        }
        assert forall|k: int|
            0 <= k < restb.len() implies buf.subrange(
            start + qb0.len() as int,
            start + qb0.len() as int + restb.len() as int,
        )[k] == restb[k] by {
            assert((qb0 + restb)[qb0.len() + k] == restb[k]);
            assert(buf[start + (qb0.len() + k)] == (qb0 + restb)[qb0.len() + k]);
        }
        assert(buf.subrange(start + qb0.len() as int, start + qb0.len() as int + restb.len() as int) =~= restb);
        lemma_parse_questions_at(buf, start + qb0.len() as int, rest);
        assert(seq![q0] + rest =~= qs);
    }
}

/// Parsing a run of serialized records recovers them all in order.
proof fn lemma_parse_records_at(buf: Seq<u8>, start: int, rs: Seq<RecordView>)
    requires
        forall|i: int| 0 <= i < rs.len() ==> wf_record(#[trigger] rs[i]),
        0 <= start,
        start + spec_records_bytes(rs).len() <= buf.len(),
        buf.subrange(start, start + spec_records_bytes(rs).len() as int) == spec_records_bytes(rs),
    ensures
        spec_parse_records(buf, start, rs.len()) == Ok::<(int, Seq<RecordView>), DnsError>(
            (start + spec_records_bytes(rs).len() as int, rs),
        ),
    decreases rs.len(),
{
    if rs.len() == 0 {
        assert(rs =~= Seq::<RecordView>::empty());
    } else {
        let r0 = rs[0];
        let rb0 = spec_record_bytes(r0);
        let rest = rs.drop_first();
        let restb = spec_records_bytes(rest);
        assert forall|k: int| 0 <= k < rb0.len() + restb.len() implies buf[start + k] == (rb0
            + restb)[k] by {
            assert(buf.subrange(start, start + spec_records_bytes(rs).len() as int)[k] == (rb0
                + restb)[k]);
        }
        assert(buf.subrange(start, start + rb0.len() as int) =~= rb0);
        lemma_parse_rr_at(buf, start, r0);
        assert forall|i: int| 0 <= i < rest.len() implies wf_record(#[trigger] rest[i]) by {
            assert(rest[i] == rs[i + 1]);
        }
        assert forall|k: int|
            0 <= k < restb.len() implies buf.subrange(
            start + rb0.len() as int,
            start + rb0.len() as int + restb.len() as int,
        )[k] == restb[k] by {
            assert((rb0 + restb)[rb0.len() + k] == restb[k]);
            assert(buf[start + (rb0.len() + k)] == (rb0 + restb)[rb0.len() + k]);
        }
        assert(buf.subrange(start + rb0.len() as int, start + rb0.len() as int + restb.len() as int) =~= restb);
        lemma_parse_records_at(buf, start + rb0.len() as int, rest);
        assert(seq![r0] + rest =~= rs);
    }
}

/// Round trip of the message codec: parsing the serialization of any
/// message whose counts match its sections, whose question names scan back
/// exactly, and whose record names are literal label sequences with data
/// lengths that match, reproduces the message field for field.
pub proof fn lemma_packet_round_trip(p: PacketView)
    requires
        wf_packet(p),
    ensures
        spec_parse_message(spec_packet_bytes(p)) == Ok::<PacketView, DnsError>(p),
{
    let buf = spec_packet_bytes(p);
    let hb = spec_header_bytes(p.header);
    let qsb = spec_questions_bytes(p.questions);
    let rsb = spec_records_bytes(p.resource_records);
    assert(hb.len() == 12);
    assert forall|k: int| 0 <= k < 12 implies buf[k] == hb[k] by {
        assert(buf[k] == ((hb + qsb) + rsb)[k]);
    }
    lemma_be16_round_trip(p.header.query_id);
    lemma_be16_round_trip(p.header.flags);
    lemma_be16_round_trip(p.header.questions_count);
    lemma_be16_round_trip(p.header.answers_count);
    lemma_be16_round_trip(p.header.authority_count);
    lemma_be16_round_trip(p.header.additional_count);
    assert(spec_parse_header(buf) == Ok::<DNSHeader, DnsError>(p.header));
    assert(buf.subrange(12, 12 + qsb.len() as int) =~= qsb);
    lemma_parse_questions_at(buf, 12, p.questions);
    assert(buf.subrange(12 + qsb.len() as int, 12 + qsb.len() as int + rsb.len() as int) =~= rsb);
    lemma_parse_records_at(buf, 12 + qsb.len() as int, p.resource_records);
    assert(spec_parse_message(buf).unwrap() =~= p);
}

/// A buffer shorter than the fixed header fails with `TruncatedHeader`;
/// together with the entry lemmas above, a count that outruns the buffer
/// ends in the first sub-decoder's typed error, never in a panic.
pub proof fn lemma_short_buffer_truncated(buf: Seq<u8>)
    requires
        buf.len() < 12,
    ensures
        spec_parse_message(buf) == Err::<PacketView, DnsError>(DnsError::TruncatedHeader),
{
}

/// A header that declares at least one question with no bytes left after
/// the header fails with `TruncatedQuestion`: the terminator scan finds
/// nothing.
pub proof fn lemma_declared_question_truncated(buf: Seq<u8>)
    requires
        buf.len() == 12,
        spec_parse_header(buf).unwrap().questions_count > 0,
    ensures
        spec_parse_message(buf) == Err::<PacketView, DnsError>(DnsError::TruncatedQuestion),
{
}

} // verus!
