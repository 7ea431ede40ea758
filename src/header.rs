use vstd::prelude::*;

use crate::error::DnsError;
use crate::reader::{can_read, Reader};

verus! {

/// The big-endian 16-bit integer at `i` in `b`.
pub open spec fn be16(b: Seq<u8>, i: int) -> u16 {
    (b[i] as int * 256 + b[i + 1] as int) as u16
}

/// The big-endian 32-bit integer at `i` in `b`.
pub open spec fn be32(b: Seq<u8>, i: int) -> u32 {
    (((b[i] as int * 256 + b[i + 1] as int) * 256 + b[i + 2] as int) * 256 + b[i + 3] as int) as u32
}

/// The two big-endian bytes of `x`.
pub open spec fn be16_bytes(x: u16) -> Seq<u8> {
    seq![(x / 256) as u8, (x % 256) as u8]
}

/// Reading back the two bytes of `x` gives `x`.
pub proof fn lemma_be16_round_trip(b: Seq<u8>, i: int, x: u16)
    requires
        0 <= i,
        i + 2 <= b.len(),
        b.subrange(i, i + 2) == be16_bytes(x),
    ensures
        be16(b, i) == x,
{
    assert(b[i] == be16_bytes(x)[0]);
    assert(b[i + 1] == be16_bytes(x)[1]);
}

/// The 16-bit big-endian integer at `i` in `s`.
pub fn get_u16(s: &[u8], i: usize) -> (r: u16)
    requires
        i + 2 <= s@.len(),
    ensures
        r == be16(s@, i as int),
{
    (s[i] as u16) * 256 + (s[i + 1] as u16)
}

/// The 32-bit big-endian integer at `i` in `s`.
pub fn get_u32(s: &[u8], i: usize) -> (r: u32)
    requires
        i + 4 <= s@.len(),
    ensures
        r == be32(s@, i as int),
{
    (((s[i] as u32) * 256 + (s[i + 1] as u32)) * 256 + (s[i + 2] as u32)) * 256 + (s[i + 3] as u32)
}

/// Appends the two big-endian bytes of `x`.
pub fn put_u16(out: &mut Vec<u8>, x: u16)
    ensures
        final(out)@ == old(out)@ + be16_bytes(x),
{
    out.push((x / 256) as u8);
    out.push((x % 256) as u8);
    assert(final(out)@ =~= old(out)@ + be16_bytes(x));
}

/// The fixed part that opens every message: a transaction id, flags, and
/// the number of entries in each of the four sections.
#[derive(Debug, Clone, Copy, PartialEq, Eq, Structural)]
pub struct DnsHeader {
    pub id: u16,
    pub flags: u16,
    pub num_questions: u16,
    pub num_answers: u16,
    pub num_authorities: u16,
    pub num_additionals: u16,
}

/// The length of a header on the wire.
pub const HEADER_LEN: usize = 12;

/// The header of a query: the given id and flags, one question, no records.
pub open spec fn query_header(id: u16, flags: u16) -> DnsHeader {
    DnsHeader {
        id,
        flags,
        num_questions: 1,
        num_answers: 0,
        num_authorities: 0,
        num_additionals: 0,
    }
}

/// The twelve bytes of a header: its six fields, big-endian, in order.
pub open spec fn header_wire(h: DnsHeader) -> Seq<u8> {
    be16_bytes(h.id) + be16_bytes(h.flags) + be16_bytes(h.num_questions) + be16_bytes(
        h.num_answers,
    ) + be16_bytes(h.num_authorities) + be16_bytes(h.num_additionals)
}

/// The header whose wire form starts at `pos`, and the offset past it.
pub open spec fn decode_header_at(b: Seq<u8>, pos: int) -> Option<(DnsHeader, int)> {
    if can_read(b, pos, HEADER_LEN as int) {
        Some(
            (
                DnsHeader {
                    id: be16(b, pos),
                    flags: be16(b, pos + 2),
                    num_questions: be16(b, pos + 4),
                    num_answers: be16(b, pos + 6),
                    num_authorities: be16(b, pos + 8),
                    num_additionals: be16(b, pos + 10),
                },
                pos + HEADER_LEN,
            ),
        )
    } else {
        None
    }
}

/// A header written at `pos` reads back the same.
pub proof fn lemma_decode_header_wire(b: Seq<u8>, pos: int, h: DnsHeader)
    requires
        0 <= pos,
        pos + 12 <= b.len(),
        b.subrange(pos, pos + 12) == header_wire(h),
    ensures
        decode_header_at(b, pos) == Some((h, pos + 12)),
{
    let w = header_wire(h);
    let e = seq![
        (h.id / 256) as u8, (h.id % 256) as u8,
        (h.flags / 256) as u8, (h.flags % 256) as u8,
        (h.num_questions / 256) as u8, (h.num_questions % 256) as u8,
        (h.num_answers / 256) as u8, (h.num_answers % 256) as u8,
        (h.num_authorities / 256) as u8, (h.num_authorities % 256) as u8,
        (h.num_additionals / 256) as u8, (h.num_additionals % 256) as u8,
    ];
    assert(w =~= e);
    assert forall|k: int| 0 <= k < 12 implies b[pos + k] == e[k] by {
        assert(b.subrange(pos, pos + 12)[k] == b[pos + k]);
    }
}

/// Relies on rand::random: draws a transaction id from the thread-local
/// generator. Nothing is known of the value.
#[verifier::external_body]
fn random_id() -> (r: u16) {
    rand::random::<u16>()
}

impl DnsHeader {
    /// The header of a query with the given flags and a fresh random id.
    pub fn new_with_rand_id(flags: u16) -> (r: DnsHeader)
        ensures
            r == query_header(r.id, flags),
    {
        let id = random_id();
        DnsHeader::new(id, flags)
    }

    /// The header of a query with the given id and flags.
    pub fn new(id: u16, flags: u16) -> (r: DnsHeader)
        ensures
            r == query_header(id, flags),
    {
        DnsHeader {
            id,
            flags,
            num_questions: 1,
            num_answers: 0,
            num_authorities: 0,
            num_additionals: 0,
        }
    }

    /// Reads a header at the reader's cursor and moves past it; fails where
    /// fewer than twelve bytes are left.
    pub fn decode(r: &mut Reader) -> (res: Result<DnsHeader, DnsError>)
        requires
            old(r).wf(),
        ensures
            final(r).wf(),
            final(r).data() == old(r).data(),
            res is Ok <==> decode_header_at(old(r).data(), old(r).pos()) is Some,
            res is Ok ==> ({
                let (h, e) = decode_header_at(old(r).data(), old(r).pos())->Some_0;
                res->Ok_0 == h && final(r).pos() == e
            }),
            res is Err ==> res->Err_0 == DnsError::CorruptMessage,
    {
        let ghost b = r.data();
        let ghost p = r.pos();
        let s = match r.read(HEADER_LEN) {
            Ok(s) => s,
            Err(e) => return Err(e),
        };
        proof {
            assert forall|k: int| 0 <= k < 12 implies s@[k] == b[p + k] by {}
        }
        Ok(DnsHeader {
            id: get_u16(s, 0),
            flags: get_u16(s, 2),
            num_questions: get_u16(s, 4),
            num_answers: get_u16(s, 6),
            num_authorities: get_u16(s, 8),
            num_additionals: get_u16(s, 10),
        })
    }

    /// The twelve bytes of the header.
    pub fn encode(self) -> (r: Vec<u8>)
        ensures
            r@ == header_wire(self),
    {
        let mut out: Vec<u8> = Vec::new();
        put_u16(&mut out, self.id);
        put_u16(&mut out, self.flags);
        put_u16(&mut out, self.num_questions);
        put_u16(&mut out, self.num_answers);
        put_u16(&mut out, self.num_authorities);
        put_u16(&mut out, self.num_additionals);
        assert(out@ =~= header_wire(self));
        out
    }
}

} // verus!
