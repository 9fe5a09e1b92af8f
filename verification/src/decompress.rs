//! The name decompressor: resolving a possibly compressed name inside a full
//! message buffer into its expanded label sequence, following 14-bit pointer
//! chains under a hop budget so that a pointer cycle fails instead of
//! recursing without bound.
use vstd::prelude::*;

use crate::DnsError;
use crate::bytes::copy_range;

verus! {

/// Bytes left in `buf` from `pos` on, clamped at zero: the termination
/// measure for walking forward through literal labels.
pub open spec fn clamped_remaining(buf: Seq<u8>, pos: int) -> int {
    if pos <= buf.len() {
        buf.len() - pos
    } else {
        0
    }
}

/// The absolute offset a 2-byte compression pointer names: the low 6 bits of
/// the first byte and all 8 of the second, big-endian.
pub open spec fn spec_pointer_target(b: u8, lo: u8) -> int {
    (b - 192) * 256 + lo
}

/// Decompressing the name at `pos` in `buf` with `fuel` pointer hops left:
/// on success, the index of the last byte of the name's own encoding at
/// `pos`, and the expanded label sequence including its zero terminator.
/// A byte with a reserved length prefix, an offset outside the buffer, or a
/// label overrunning it is `MalformedName`; a pointer met with no hop budget
/// left is `PointerLoop`.
pub open spec fn spec_decompress(buf: Seq<u8>, pos: int, fuel: nat) -> Result<
    (int, Seq<u8>),
    DnsError,
>
    decreases fuel, clamped_remaining(buf, pos),
{
    if pos < 0 || pos >= buf.len() {
        Err(DnsError::MalformedName)
    } else if buf[pos] == 0 {
        Ok((pos, seq![0u8]))
    } else if buf[pos] >= 192 {
        if fuel == 0 {
            Err(DnsError::PointerLoop)
        } else if pos + 1 >= buf.len() {
            Err(DnsError::MalformedName)
        } else {
            match spec_decompress(buf, spec_pointer_target(buf[pos], buf[pos + 1]), (fuel
                - 1) as nat) {
                Ok((end, name)) => Ok((pos + 1, name)),
                Err(e) => Err(e),
            }
        }
    } else if buf[pos] >= 64 {
        Err(DnsError::MalformedName)
    } else if pos + 1 + buf[pos] > buf.len() {
        Err(DnsError::MalformedName)
    } else {
        match spec_decompress(buf, pos + 1 + buf[pos], fuel) {
            Ok((end, name)) => Ok((end, buf.subrange(pos, pos + 1 + buf[pos]) + name)),
            Err(e) => Err(e),
        }
    }
}

/// A successful decompression ends at a byte of the buffer at or after where
/// it started, and the expanded name is closed by its zero terminator.
pub proof fn lemma_decompress_bounds(buf: Seq<u8>, pos: int, fuel: nat)
    requires
        spec_decompress(buf, pos, fuel) is Ok,
    ensures
        ({
            let (end, name) = spec_decompress(buf, pos, fuel).unwrap();
            pos <= end < buf.len() && name.len() >= 1 && name[name.len() - 1] == 0
        }),
    decreases fuel, clamped_remaining(buf, pos),
{
    if 0 <= pos < buf.len() {
        if buf[pos] == 0 {
        } else if buf[pos] >= 192 {
            if fuel >= 1 && pos + 1 < buf.len() {
                lemma_decompress_bounds(
                    buf,
                    spec_pointer_target(buf[pos], buf[pos + 1]),
                    (fuel - 1) as nat,
                );
            }
        } else if buf[pos] < 64 && pos + 1 + buf[pos] <= buf.len() {
            lemma_decompress_bounds(buf, pos + 1 + buf[pos], fuel);
        }
    }
}

/// Recursive worker for `dns_decompression`, one call per name component.
fn decompress_at(response: &Vec<u8>, pos: usize, fuel: usize) -> (r: Result<
    (usize, Vec<u8>),
    DnsError,
>)
    ensures
        ({
            match (r, spec_decompress(response@, pos as int, fuel as nat)) {
                (Ok((end, name)), Ok((send, sname))) => end as int == send && name@ == sname,
                (Err(a), Err(b)) => a == b,
                _ => false,
            }
        }),
    decreases fuel, clamped_remaining(response@, pos as int),
{
    let n = response.len();
    if pos >= n {
        return Err(DnsError::MalformedName);
    }
    let b = response[pos];
    if b == 0 {
        let mut name: Vec<u8> = Vec::new();
        name.push(0u8);
        proof {
            assert(name@ =~= seq![0u8]);
        }
        return Ok((pos, name));
    }
    if b >= 192 {
        if fuel == 0 {
            return Err(DnsError::PointerLoop);
        }
        if pos + 1 >= n {
            return Err(DnsError::MalformedName);
        }
        let target = (b - 192) as usize * 256 + response[pos + 1] as usize;
        match decompress_at(response, target, fuel - 1) {
            Ok((_end, name)) => Ok((pos + 1, name)),
            Err(e) => Err(e),
        }
    } else if b >= 64 {
        Err(DnsError::MalformedName)
    } else {
        let blen = b as usize;
        if n - (pos + 1) < blen {
            return Err(DnsError::MalformedName);
        }
        let mut name: Vec<u8> = Vec::new();
        copy_range(response, pos, pos + 1 + blen, &mut name);
        match decompress_at(response, pos + 1 + blen, fuel) {
            Ok((end, mut rest)) => {
                name.append(&mut rest);
                Ok((end, name))
            },
            Err(e) => Err(e),
        }
    }
}

/// Resolves the possibly compressed name at `query_name_start` against the
/// whole message buffer: returns the index of the last byte of the name's
/// own encoding (a pointer counts as 2 bytes, a literal label as its actual
/// length) and the expanded label sequence with its zero terminator. The hop
/// budget of one per buffer byte admits every acyclic pointer chain, so a
/// `PointerLoop` failure means the chain revisited an offset.
pub fn dns_decompression(response: &Vec<u8>, query_name_start: usize) -> (r: Result<
    (usize, Vec<u8>),
    DnsError,
>)
    ensures
        ({
            match (r, spec_decompress(response@, query_name_start as int, response@.len() as nat)) {
                (Ok((end, name)), Ok((send, sname))) => end as int == send && name@ == sname,
                (Err(a), Err(b)) => a == b,
                _ => false,
            }
        }),
{
    let fuel = response.len();
    decompress_at(response, query_name_start, fuel)
}

/// A literal (uncompressed) label sequence: length-prefixed labels of 1 to
/// 63 bytes each, closed by a zero byte.
pub open spec fn wf_labels(name: Seq<u8>) -> bool
    decreases name.len(),
{
    name.len() >= 1 && (if name[0] == 0 {
        name.len() == 1
    } else {
        name[0] < 64 && 1 + name[0] < name.len() && wf_labels(name.skip(1 + name[0]))
    })
}

/// A literal name embedded in a buffer decompresses to itself, ending at its
/// own last byte, whatever hop budget remains: literal labels spend none.
pub proof fn lemma_decompress_literal(buf: Seq<u8>, pos: int, name: Seq<u8>, fuel: nat)
    requires
        wf_labels(name),
        0 <= pos,
        pos + name.len() <= buf.len(),
        buf.subrange(pos, pos + name.len()) == name,
    ensures
        spec_decompress(buf, pos, fuel) == Ok::<(int, Seq<u8>), DnsError>(
            (pos + name.len() - 1, name),
        ),
    decreases name.len(),
{
    assert(buf[pos] == name[0]);
    if name[0] == 0 {
        assert(name =~= seq![0u8]);
    } else {
        let b = name[0];
        let rest = name.skip(1 + b);
        assert(buf.subrange(pos + 1 + b, pos + 1 + b + rest.len()) =~= rest);
        lemma_decompress_literal(buf, pos + 1 + b, rest, fuel);
        assert(buf.subrange(pos, pos + 1 + b) + rest =~= name);
    }
}

/// Decompression equivalence: a name that is a pure pointer to a literal
/// name elsewhere in the buffer expands to the identical label sequence, and
/// the name's own encoding spans exactly the 2 pointer bytes.
pub proof fn lemma_pointer_to_literal(buf: Seq<u8>, pos: int, name: Seq<u8>, fuel: nat)
    requires
        0 <= pos,
        pos + 1 < buf.len(),
        buf[pos] >= 192,
        fuel >= 1,
        wf_labels(name),
        spec_pointer_target(buf[pos], buf[pos + 1]) + name.len() <= buf.len(),
        buf.subrange(
            spec_pointer_target(buf[pos], buf[pos + 1]),
            spec_pointer_target(buf[pos], buf[pos + 1]) + name.len(),
        ) == name,
    ensures
        spec_decompress(buf, pos, fuel) == Ok::<(int, Seq<u8>), DnsError>((pos + 1, name)),
{
    lemma_decompress_literal(buf, spec_pointer_target(buf[pos], buf[pos + 1]), name, (fuel
        - 1) as nat);
}

/// Recursive decompression: a pointer that leads to another pointer expands
/// to whatever name the second pointer's target holds, exactly as if each
/// hop were followed by hand, two units of hop budget having been spent; the
/// outer name's own encoding still spans only the first 2 pointer bytes.
pub proof fn lemma_pointer_chain(buf: Seq<u8>, pos: int, fuel: nat)
    requires
        0 <= pos,
        pos + 1 < buf.len(),
        buf[pos] >= 192,
        ({
            let t = spec_pointer_target(buf[pos], buf[pos + 1]);
            t + 1 < buf.len() && buf[t] >= 192
        }),
        fuel >= 2,
    ensures
        ({
            let t = spec_pointer_target(buf[pos], buf[pos + 1]);
            let u = spec_pointer_target(buf[t], buf[t + 1]);
            spec_decompress(buf, pos, fuel) == match spec_decompress(buf, u, (fuel - 2) as nat) {
                Ok((end, name)) => Ok::<(int, Seq<u8>), DnsError>((pos + 1, name)),
                Err(e) => Err(e),
            }
        }),
{
    reveal_with_fuel(spec_decompress, 3);
}

} // verus!
