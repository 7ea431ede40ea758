use vstd::prelude::*;

use crate::name::{split_dots, DOT};
use crate::text::{ascii_chars, is_ascii_bytes, string_from_ascii};
use vstd::slice::slice_to_vec;
use vstd::string::StringSliceAdditionalSpecFns;

verus! {

/// An IPv4 address: four octets, most significant first.
#[derive(Debug, Clone, Copy, PartialEq, Eq)]
pub struct IPv4([u8; 4]);

impl View for IPv4 {
    type V = Seq<u8>;

    closed spec fn view(&self) -> Seq<u8> {
        self.0@
    }
}

/// The ASCII code of the digit `d`.
pub open spec fn digit(d: u8) -> u8 {
    (48 + d) as u8
}

/// The decimal digits of `n`, without leading zeros.
pub open spec fn decimal(n: u8) -> Seq<u8> {
    if n >= 100 {
        seq![digit(n / 100), digit((n / 10) % 10), digit(n % 10)]
    } else if n >= 10 {
        seq![digit(n / 10), digit(n % 10)]
    } else {
        seq![digit(n)]
    }
}

/// The text form `a.b.c.d` of four octets.
pub open spec fn dotted_quad(o: Seq<u8>) -> Seq<u8> {
    decimal(o[0]) + seq![DOT] + decimal(o[1]) + seq![DOT] + decimal(o[2]) + seq![DOT] + decimal(o[3])
}

/// Appends the decimal digits of `n`.
fn push_decimal(out: &mut Vec<u8>, n: u8)
    ensures
        final(out)@ == old(out)@ + decimal(n),
{
    if n >= 100 {
        out.push(48 + n / 100);
        out.push(48 + (n / 10) % 10);
        out.push(48 + n % 10);
    } else if n >= 10 {
        out.push(48 + n / 10);
        out.push(48 + n % 10);
    } else {
        out.push(48 + n);
    }
    assert(final(out)@ =~= old(out)@ + decimal(n));
}

/// The byte `+`, which may open a decimal octet.
pub const PLUS: u8 = 43;

/// An ASCII decimal digit.
pub open spec fn is_digit(c: u8) -> bool {
    48 <= c <= 57
}

/// The value of a string of decimal digits.
pub open spec fn decimal_value(d: Seq<u8>) -> int
    decreases d.len(),
{
    if d.len() == 0 {
        0
    } else {
        decimal_value(d.drop_last()) * 10 + (d.last() - 48)
    }
}

/// The octet written as `p`, as integer parsing reads an 8-bit unsigned
/// integer: an optional `+`, then one or more decimal digits, of value at
/// most 255 (leading zeros allowed).
pub open spec fn parse_octet(p: Seq<u8>) -> Option<u8> {
    let d = octet_digits(p);
    if d.len() >= 1 && all_digits(d) && decimal_value(d) <= 255 {
        Some(decimal_value(d) as u8)
    } else {
        None
    }
}

/// The digits of an octet: what follows an opening `+`, if any.
pub open spec fn octet_digits(p: Seq<u8>) -> Seq<u8> {
    if p.len() > 0 && p[0] == PLUS {
        p.drop_first()
    } else {
        p
    }
}

/// Whether every byte is a decimal digit.
pub open spec fn all_digits(d: Seq<u8>) -> bool {
    forall|i: int| 0 <= i < d.len() ==> is_digit(#[trigger] d[i])
}

/// Whether the first `n` parts of `ps` are octets.
pub open spec fn octets_parse(ps: Seq<Seq<u8>>, n: int) -> bool {
    forall|j: int| 0 <= j < n ==> #[trigger] parse_octet(ps[j]) is Some
}

/// The address written as `t`: exactly four octets separated by dots.
pub open spec fn parse_quad(t: Seq<u8>) -> Option<Seq<u8>> {
    let ps = split_dots(t);
    if ps.len() == 4 && octets_parse(ps, 4) {
        Some(
            seq![
                parse_octet(ps[0])->Some_0,
                parse_octet(ps[1])->Some_0,
                parse_octet(ps[2])->Some_0,
                parse_octet(ps[3])->Some_0,
            ],
        )
    } else {
        None
    }
}

/// The value of the digits `d`, or 256 where it exceeds 255.
fn capped_value(d: &[u8], from: usize) -> (r: u32)
    requires
        from <= d@.len(),
        forall|i: int| from <= i < d@.len() ==> is_digit(#[trigger] d@[i]),
    ensures
        r == if decimal_value(d@.subrange(from as int, d@.len() as int)) <= 255 {
            decimal_value(d@.subrange(from as int, d@.len() as int))
        } else {
            256
        },
{
    let mut v: u32 = 0;
    let mut i: usize = from;
    assert(d@.subrange(from as int, from as int) =~= Seq::<u8>::empty());
    while i < d.len()
        invariant
            from <= i <= d@.len(),
            forall|k: int| from <= k < d@.len() ==> is_digit(#[trigger] d@[k]),
            v == if decimal_value(d@.subrange(from as int, i as int)) <= 255 {
                decimal_value(d@.subrange(from as int, i as int))
            } else {
                256
            },
            decimal_value(d@.subrange(from as int, i as int)) >= 0,
        decreases d@.len() - i,
    {
        let ghost pre = d@.subrange(from as int, i as int);
        let ghost next = d@.subrange(from as int, i + 1);
        assert(next.drop_last() =~= pre);
        assert(is_digit(d@[i as int]));
        let w = v * 10 + (d[i] - 48) as u32;
        v = if w > 255 { 256 } else { w };
        i = i + 1;
    }
    assert(d@.subrange(from as int, d@.len() as int) == d@.subrange(from as int, i as int));
    v
}

/// The octet written as `p`; see `parse_octet`.
fn octet_of(p: &[u8]) -> (r: Option<u8>)
    ensures
        r == parse_octet(p@),
{
    let from: usize = if p.len() > 0 && p[0] == PLUS { 1 } else { 0 };
    let ghost d = octet_digits(p@);
    assert(d =~= p@.subrange(from as int, p@.len() as int));
    if from >= p.len() {
        return None;
    }
    let mut i: usize = from;
    while i < p.len()
        invariant
            from <= i <= p@.len(),
            d == p@.subrange(from as int, p@.len() as int),
            d == octet_digits(p@),
            forall|k: int| from <= k < i ==> is_digit(#[trigger] p@[k]),
        decreases p@.len() - i,
    {
        if p[i] < 48 || p[i] > 57 {
            assert(d[i - from] == p@[i as int]);
            assert(!is_digit(d[i - from]));
            assert(!all_digits(d));
            return None;
        }
        i = i + 1;
    }
    assert forall|k: int| 0 <= k < d.len() implies is_digit(#[trigger] d[k]) by {
        assert(d[k] == p@[k + from]);
    }
    let v = capped_value(p, from);
    if v > 255 {
        None
    } else {
        Some(v as u8)
    }
}

impl IPv4 {
    /// The address written as `s`: four decimal octets separated by dots
    /// (see `parse_quad`).
    pub fn parse(s: &str) -> (r: Result<IPv4, &'static str>)
        ensures
            r is Ok <==> parse_quad(s.spec_bytes()) is Some,
            r is Ok ==> r->Ok_0@ == parse_quad(s.spec_bytes())->Some_0,
            split_dots(s.spec_bytes()).len() != 4 ==> r == Err::<IPv4, &'static str>(
                "incorrect length of IPv4 address",
            ),
            split_dots(s.spec_bytes()).len() == 4 && !octets_parse(split_dots(s.spec_bytes()), 4)
                ==> r == Err::<IPv4, &'static str>("Invalid octet"),
    {
        let t = slice_to_vec(s.as_bytes());
        let mut octs: Vec<u8> = Vec::new();
        let mut cur: Vec<u8> = Vec::new();
        let mut bad = false;
        let mut parts: usize = 0;
        let ghost mut done: Seq<Seq<u8>> = seq![];
        let mut i: usize = 0;
        assert(t@.subrange(0, 0) =~= Seq::<u8>::empty());
        assert(done.push(cur@) =~= seq![Seq::<u8>::empty()]);
        while i < t.len()
            invariant
                i <= t@.len(),
                parts == done.len(),
                parts <= i,
                split_dots(t@.subrange(0, i as int)) == done.push(cur@),
                parts <= 3 ==> bad == !octets_parse(done, parts as int),
                parts <= 3 && !bad ==> octs@.len() == parts,
                parts <= 3 && !bad ==> forall|j: int|
                    0 <= j < parts ==> octs@[j] == parse_octet(#[trigger] done[j])->Some_0,
            decreases t@.len() - i,
        {
            assert(t@.subrange(0, i + 1).drop_last() =~= t@.subrange(0, i as int));
            if t[i] == DOT {
                let ghost next = done.push(cur@);
                proof {
                    assert forall|j: int| 0 <= j < done.len() implies next[j] == done[j] by {}
                    if parts < 3 && bad {
                        let j = choose|j: int| 0 <= j < parts && !(parse_octet(done[j]) is Some);
                        assert(next[j] == done[j]);
                    }
                }
                if parts < 3 && !bad {
                    match octet_of(cur.as_slice()) {
                        Some(v) => {
                            octs.push(v);
                        },
                        None => {
                            bad = true;
                            assert(parse_octet(next[parts as int]) is None);
                        },
                    }
                }
                proof {
                    assert(next.drop_last() =~= done);
                    done = next;
                }
                parts = parts + 1;
                cur = Vec::new();
                assert(split_dots(t@.subrange(0, i + 1)) =~= done.push(cur@));
            } else {
                cur.push(t[i]);
                assert(split_dots(t@.subrange(0, i + 1)) =~= done.push(cur@));
            }
            i = i + 1;
        }
        assert(t@.subrange(0, i as int) =~= t@);
        let ghost ps = done.push(cur@);
        if parts != 3 {
            return Err("incorrect length of IPv4 address");
        }
        assert forall|j: int| 0 <= j < 3 implies ps[j] == done[j] by {}
        if bad {
            proof {
                let j = choose|j: int| 0 <= j < parts && !(parse_octet(done[j]) is Some);
                assert(ps[j] == done[j]);
            }
            return Err("Invalid octet");
        }
        match octet_of(cur.as_slice()) {
            Some(v) => {
                let r = IPv4([octs[0], octs[1], octs[2], v]);
                assert(r@ =~= parse_quad(t@)->Some_0);
                Ok(r)
            },
            None => {
                assert(!(parse_octet(ps[3]) is Some));
                Err("Invalid octet")
            },
        }
    }

    /// The address `a.b.c.d`.
    pub fn new(a: u8, b: u8, c: u8, d: u8) -> (r: IPv4)
        ensures
            r@ == seq![a, b, c, d],
    {
        let r = IPv4([a, b, c, d]);
        assert(r@ =~= seq![a, b, c, d]);
        r
    }

    /// The four octets.
    pub fn octets(&self) -> (r: [u8; 4])
        ensures
            r@ == self@,
    {
        self.0
    }

    /// The address held in exactly four bytes; `None` for any other length.
    pub fn from_bytes(b: &[u8]) -> (r: Option<IPv4>)
        ensures
            r is Some <==> b@.len() == 4,
            r is Some ==> r->Some_0@ == b@,
    {
        if b.len() == 4 {
            let r = IPv4([b[0], b[1], b[2], b[3]]);
            assert(r@ =~= b@);
            Some(r)
        } else {
            None
        }
    }

    /// The bytes of the text form `a.b.c.d`, each octet in decimal.
    pub fn text_bytes(&self) -> (r: Vec<u8>)
        ensures
            r@ == dotted_quad(self@),
            is_ascii_bytes(r@),
    {
        let mut out: Vec<u8> = Vec::new();
        push_decimal(&mut out, self.0[0]);
        out.push(DOT);
        push_decimal(&mut out, self.0[1]);
        out.push(DOT);
        push_decimal(&mut out, self.0[2]);
        out.push(DOT);
        push_decimal(&mut out, self.0[3]);
        assert(out@ =~= dotted_quad(self@));
        out
    }

    /// The text form `a.b.c.d`, each octet in decimal.
    pub fn to_text(&self) -> (r: String)
        ensures
            r@ == ascii_chars(dotted_quad(self@)),
    {
        string_from_ascii(self.text_bytes())
    }
}

impl std::str::FromStr for IPv4 {
    type Err = &'static str;

    fn from_str(s: &str) -> Result<Self, Self::Err> {
        IPv4::parse(s)
    }
}

} // verus!
