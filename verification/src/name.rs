//! The domain-name codec: a dotted ASCII string against the wire form, a
//! run of length-prefixed labels closed by a zero byte.
use vstd::prelude::*;

use crate::DnsError;
use crate::bytes::spec_find_byte;
use crate::bytes::lemma_find_byte;
use crate::bytes::lemma_find_byte_skip;
use crate::bytes::find_byte_from;
use crate::bytes::copy_range;
use vstd::string::StringSliceAdditionalSpecFns;
use vstd::string::StrSliceExecFns;

verus! {

/// A byte a decoded name may show: printable ASCII.
pub open spec fn is_printable(b: u8) -> bool {
    32 <= b && b <= 126
}

/// Every byte of `s` is printable ASCII.
pub open spec fn all_printable(s: Seq<u8>) -> bool {
    forall|i: int| 0 <= i < s.len() ==> is_printable(#[trigger] s[i])
}

/// The label-sequence encoding of the dotted name `s`: each segment as a
/// length byte followed by its bytes, closed by a zero byte.
pub open spec fn spec_encode_name(s: Seq<u8>) -> Seq<u8>
    decreases s.len(),
    via spec_encode_name_decreases
{
    match spec_find_byte(s, 46, 0) {
        None => seq![s.len() as u8] + s + seq![0u8],
        Some(i) => seq![i as u8] + s.take(i) + spec_encode_name(s.skip(i + 1)),
    }
}

#[via_fn]
proof fn spec_encode_name_decreases(s: Seq<u8>) {
    lemma_find_byte(s, 46, 0);
}

/// Every dot-separated segment of `s` is at most 63 bytes long.
pub open spec fn segments_ok(s: Seq<u8>) -> bool
    decreases s.len(),
    via segments_ok_decreases
{
    match spec_find_byte(s, 46, 0) {
        None => s.len() <= 63,
        Some(i) => i <= 63 && segments_ok(s.skip(i + 1)),
    }
}

#[via_fn]
proof fn segments_ok_decreases(s: Seq<u8>) {
    lemma_find_byte(s, 46, 0);
}

/// The dotted name `s` encodes within the wire limits: segments of at most
/// 63 bytes, and an encoded form (`s.len() + 2` bytes) of at most 255.
pub open spec fn spec_name_ok(s: Seq<u8>) -> bool {
    segments_ok(s) && s.len() <= 253
}

/// The dotted name read off a label sequence: segments joined by dots,
/// stopping at the zero-byte terminator. Fails when a length byte overruns
/// the bytes available or a segment byte is not printable ASCII.
pub open spec fn spec_decode_name(l: Seq<u8>) -> Result<Seq<u8>, DnsError>
    decreases l.len(),
{
    if l.len() == 0 {
        Err(DnsError::MalformedName)
    } else if l[0] == 0 {
        Ok(Seq::empty())
    } else if 1 + l[0] > l.len() {
        Err(DnsError::MalformedName)
    } else if !all_printable(l.subrange(1, 1 + l[0])) {
        Err(DnsError::MalformedName)
    } else {
        match spec_decode_name(l.skip(1 + l[0])) {
            Ok(rest) => if rest.len() == 0 {
                Ok(l.subrange(1, 1 + l[0]))
            } else {
                Ok(l.subrange(1, 1 + l[0]) + seq![46u8] + rest)
            },
            Err(e) => Err(e),
        }
    }
}

/// Encodes `d[pos..]` as a label sequence, or reports a segment over 63
/// bytes.
fn encode_suffix(d: &Vec<u8>, pos: usize) -> (r: Result<Vec<u8>, DnsError>)
    requires
        pos <= d@.len(),
    ensures
        ({
            let s = d@.skip(pos as int);
            match r {
                Ok(v) => segments_ok(s) && v@ == spec_encode_name(s),
                Err(e) => !segments_ok(s) && e == DnsError::InvalidName,
            }
        }),
    decreases d@.len() - pos,
{
    let ghost s = d@.skip(pos as int);
    let dl = d.len();
    proof {
        lemma_find_byte(d@, 46, pos as int);
        lemma_find_byte_skip(d@, 46, pos as int, pos as int);
    }
    match find_byte_from(d, 46, pos) {
        Some(i) => {
            assert(i < dl);
            let seg = i - pos;
            if seg > 63 {
                return Err(DnsError::InvalidName);
            }
            let mut v: Vec<u8> = Vec::new();
            v.push(seg as u8);
            copy_range(d, pos, i, &mut v);
            match encode_suffix(d, i + 1) {
                Ok(mut rest) => {
                    v.append(&mut rest);
                    proof {
                        assert(s.take(seg as int) =~= d@.subrange(pos as int, i as int));
                        assert(s.skip(seg + 1) =~= d@.skip(i + 1));
                        assert(v@ =~= spec_encode_name(s));
                    }
                    Ok(v)
                },
                Err(e) => {
                    proof {
                        assert(s.skip(seg + 1) =~= d@.skip(i + 1));
                    }
                    Err(e)
                },
            }
        },
        None => {
            let n = dl - pos;
            if n > 63 {
                return Err(DnsError::InvalidName);
            }
            let mut v: Vec<u8> = Vec::new();
            v.push(n as u8);
            copy_range(d, pos, d.len(), &mut v);
            v.push(0u8);
            proof {
                assert(s =~= d@.subrange(pos as int, d@.len() as int));
                assert(v@ =~= spec_encode_name(s));
            }
            Ok(v)
        },
    }
}

/// Splits a dotted domain name on `.` and emits each segment as a length
/// byte followed by the segment's bytes, closed by a zero byte. Fails with
/// `InvalidName` when a segment exceeds 63 bytes or the encoded form would
/// exceed 255 bytes.
pub fn domain_to_labels(domain: &str) -> (r: Result<Vec<u8>, DnsError>)
    ensures
        ({
            let s = domain.spec_bytes();
            match r {
                Ok(v) => spec_name_ok(s) && v@ == spec_encode_name(s),
                Err(e) => !spec_name_ok(s) && e == DnsError::InvalidName,
            }
        }),
{
    let d = domain.as_bytes_vec();
    if d.len() > 253 {
        return Err(DnsError::InvalidName);
    }
    let r = encode_suffix(&d, 0);
    proof {
        assert(d@.skip(0) =~= d@);
    }
    r
}

/// Decodes the label sequence `l[pos..]` into dotted bytes.
#[verifier::loop_isolation(false)]
fn decode_suffix(l: &Vec<u8>, pos: usize) -> (r: Result<Vec<u8>, DnsError>)
    requires
        pos <= l@.len(),
    ensures
        ({
            let s = l@.skip(pos as int);
            match (r, spec_decode_name(s)) {
                (Ok(v), Ok(d)) => v@ == d,
                (Err(a), Err(b)) => a == b,
                _ => false,
            }
        }),
    decreases l@.len() - pos,
{
    let ghost s = l@.skip(pos as int);
    if pos >= l.len() {
        return Err(DnsError::MalformedName);
    }
    let len_byte = l[pos];
    assert(s[0] == len_byte);
    if len_byte == 0 {
        return Ok(Vec::new());
    }
    let n = len_byte as usize;
    if l.len() - (pos + 1) < n {
        return Err(DnsError::MalformedName);
    }
    proof {
        assert(s.subrange(1, 1 + len_byte as int) =~= l@.subrange(pos + 1, pos + 1 + n));
    }
    let mut j = pos + 1;
    while j < pos + 1 + n
        invariant
            pos + 1 <= j <= pos + 1 + n,
            pos + 1 + n <= l@.len(),
            l@.len() <= usize::MAX,
            forall|k: int| pos + 1 <= k < j ==> is_printable(#[trigger] l@[k]),
        decreases pos + 1 + n - j,
    {
        let b = l[j];
        if b < 32 || b > 126 {
            proof {
                let sub = l@.subrange(pos + 1, pos + 1 + n);
                assert(sub[j - pos - 1] == l@[j as int]);
                assert(!is_printable(sub[j - pos - 1]));
                assert(!all_printable(sub));
            }
            return Err(DnsError::MalformedName);
        }
        j = j + 1;
    }
    assert(all_printable(l@.subrange(pos + 1, pos + 1 + n)));
    proof {
        assert(s.skip(1 + len_byte as int) =~= l@.skip(pos + 1 + n));
    }
    match decode_suffix(l, pos + 1 + n) {
        Ok(mut rest) => {
            let mut v: Vec<u8> = Vec::new();
            copy_range(l, pos + 1, pos + 1 + n, &mut v);
            if rest.len() > 0 {
                v.push(46);
                v.append(&mut rest);
                proof {
                    assert(v@ =~= spec_decode_name(s).unwrap());
                }
            } else {
                proof {
                    assert(v@ =~= spec_decode_name(s).unwrap());
                }
            }
            Ok(v)
        },
        Err(e) => Err(e),
    }
}

/// Every byte of a successfully decoded name is printable ASCII: segment
/// bytes by the decode check, joining dots by themselves.
pub proof fn lemma_decoded_printable(l: Seq<u8>)
    requires
        spec_decode_name(l) is Ok,
    ensures
        all_printable(spec_decode_name(l).unwrap()),
    decreases l.len(),
{
    if l.len() == 0 || l[0] == 0 {
    } else {
        lemma_decoded_printable(l.skip(1 + l[0]));
    }
}

/// Relies on `String::from_utf8`: bytes below 0x80 are one-byte UTF-8
/// sequences and decode to the chars with the same code points.
#[verifier::external_body]
fn ascii_to_string(bytes: Vec<u8>) -> (r: String)
    requires
        forall|i: int| 0 <= i < bytes@.len() ==> bytes@[i] < 128,
    ensures
        r@ == bytes@.map_values(|b: u8| b as char),
{
    match String::from_utf8(bytes) {
        Ok(s) => s,
        Err(_) => String::new(),
    }
}

/// Walks the label records of `labels`, joining the segments with dots and
/// stopping at the zero-byte terminator. Fails with `MalformedName` when a
/// length byte overruns the available bytes or a segment byte is not
/// printable ASCII.
pub fn labels_to_domains(labels: &Vec<u8>) -> (r: Result<String, DnsError>)
    ensures
        ({
            match (r, spec_decode_name(labels@)) {
                (Ok(s), Ok(d)) => s@ == d.map_values(|b: u8| b as char),
                (Err(a), Err(b)) => a == b,
                _ => false,
            }
        }),
{
    proof {
        assert(labels@.skip(0) =~= labels@);
    }
    match decode_suffix(labels, 0) {
        Ok(v) => {
            proof {
                lemma_decoded_printable(labels@);
            }
            Ok(ascii_to_string(v))
        },
        Err(e) => Err(e),
    }
}

/// A dotted name the codec round-trips: dot-separated segments of 1 to 63
/// printable-ASCII bytes each.
pub open spec fn round_trippable_name(s: Seq<u8>) -> bool
    decreases s.len(),
    via round_trippable_name_decreases
{
    match spec_find_byte(s, 46, 0) {
        None => 1 <= s.len() <= 63 && all_printable(s),
        Some(i) => 1 <= i <= 63 && all_printable(s.take(i)) && round_trippable_name(s.skip(i + 1)),
    }
}

#[via_fn]
proof fn round_trippable_name_decreases(s: Seq<u8>) {
    lemma_find_byte(s, 46, 0);
}

/// A round-trippable dotted name is never empty: its first segment holds at
/// least one byte.
pub proof fn lemma_round_trippable_nonempty(s: Seq<u8>)
    requires
        round_trippable_name(s),
    ensures
        s.len() >= 1,
{
    lemma_find_byte(s, 46, 0);
}

/// Round trip of the domain-name codec: decoding the encoding of any dotted
/// name made of segments of 1 to 63 printable-ASCII bytes gives the name
/// back unchanged.
pub proof fn lemma_name_round_trip(s: Seq<u8>)
    requires
        round_trippable_name(s),
    ensures
        spec_decode_name(spec_encode_name(s)) == Ok::<Seq<u8>, DnsError>(s),
    decreases s.len(),
{
    reveal_with_fuel(spec_decode_name, 2);
    lemma_find_byte(s, 46, 0);
    match spec_find_byte(s, 46, 0) {
        None => {
            let l = spec_encode_name(s);
            assert(l == seq![s.len() as u8] + s + seq![0u8]);
            assert(l.subrange(1, 1 + l[0]) =~= s);
            assert(l.skip(1 + l[0]) =~= seq![0u8]);
        },
        Some(i) => {
            let l = spec_encode_name(s);
            let tail = spec_encode_name(s.skip(i + 1));
            lemma_name_round_trip(s.skip(i + 1));
            assert(l == seq![i as u8] + s.take(i) + tail);
            assert(l.subrange(1, 1 + l[0]) =~= s.take(i));
            assert(l.skip(1 + l[0]) =~= tail);
            let rest = s.skip(i + 1);
            lemma_round_trippable_nonempty(rest);
            assert(s.take(i) + seq![46u8] + rest =~= s);
        },
    }
}


/// Round trip at the string level: an ASCII domain string whose
/// dot-separated segments hold 1 to 63 printable bytes each decodes from
/// its own encoding back to the very same characters.
pub proof fn lemma_domain_string_round_trip(d: &str)
    requires
        vstd::string::is_ascii(d),
        round_trippable_name(d.spec_bytes()),
    ensures
        spec_decode_name(spec_encode_name(d.spec_bytes())) == Ok::<Seq<u8>, DnsError>(
            d.spec_bytes(),
        ),
        spec_decode_name(spec_encode_name(d.spec_bytes())).unwrap().map_values(
            |b: u8| b as char,
        ) =~= d@,
{
    lemma_name_round_trip(d.spec_bytes());
    vstd::utf8::is_ascii_chars_encode_utf8(d@);
    assert forall|i: int|
        0 <= i < d@.len() implies d.spec_bytes().map_values(|b: u8| b as char)[i] == d@[i] by {
        assert(d@[i] as u8 == d.spec_bytes()[i]);
        assert('\0' <= d@[i] <= '\u{7f}');
        assert(((d@[i] as u8) as char) == d@[i]);
    }
}

} // verus!
