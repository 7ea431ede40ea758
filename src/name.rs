use vstd::prelude::*;

use crate::error::DnsError;
use crate::reader::{can_read, Reader};
use crate::text::{
    all_ascii, ascii_bytes, ascii_bytes_of, ascii_chars, is_ascii_bytes, push_all,
    string_from_ascii,
};

verus! {

/// The byte `.` that separates labels in the text form of a name.
pub const DOT: u8 = 46;

/// The longest label the wire format can carry: the two high bits of a
/// length byte are reserved for compression pointers.
pub const MAX_LABEL_LEN: usize = 63;

// ---------------------------------------------------------------------------
// Text form: labels joined by dots.

/// The labels of a dotted name, split at every dot (`"a..b"` gives an empty
/// middle label, `""` gives one empty label).
pub open spec fn split_dots(t: Seq<u8>) -> Seq<Seq<u8>>
    decreases t.len(),
{
    if t.len() == 0 {
        seq![Seq::<u8>::empty()]
    } else {
        let rest = split_dots(t.drop_last());
        if t.last() == DOT {
            rest.push(Seq::<u8>::empty())
        } else {
            rest.update(rest.len() - 1, rest.last().push(t.last()))
        }
    }
}

/// The labels joined by dots.
pub open spec fn join_dots(ls: Seq<Seq<u8>>) -> Seq<u8>
    decreases ls.len(),
{
    if ls.len() == 0 {
        Seq::<u8>::empty()
    } else if ls.len() == 1 {
        ls[0]
    } else {
        join_dots(ls.drop_last()) + seq![DOT] + ls.last()
    }
}

/// What is wrong with one label, if anything.
pub open spec fn label_error(l: Seq<u8>) -> Option<DnsError> {
    if l.len() == 0 {
        Some(DnsError::EmptyLabel)
    } else if l.len() > MAX_LABEL_LEN {
        Some(DnsError::LabelTooLong)
    } else {
        None
    }
}

/// What is wrong with the first bad label, if any.
pub open spec fn labels_error(ls: Seq<Seq<u8>>) -> Option<DnsError>
    decreases ls.len(),
{
    if ls.len() == 0 {
        None
    } else {
        match labels_error(ls.drop_last()) {
            Some(e) => Some(e),
            None => label_error(ls.last()),
        }
    }
}

/// The length-prefixed labels, without the terminating zero byte.
pub open spec fn labels_wire(ls: Seq<Seq<u8>>) -> Seq<u8>
    decreases ls.len(),
{
    if ls.len() == 0 {
        Seq::<u8>::empty()
    } else {
        labels_wire(ls.drop_last()) + seq![ls.last().len() as u8] + ls.last()
    }
}

/// The wire form of a dotted name: its labels, then a zero byte.
pub open spec fn name_wire(t: Seq<u8>) -> Seq<u8> {
    labels_wire(split_dots(t)) + seq![0u8]
}

/// A name that encodes: ASCII, and every label 1 to 63 bytes long.
pub open spec fn valid_name(t: Seq<u8>) -> bool {
    is_ascii_bytes(t) && labels_error(split_dots(t)) is None
}

pub proof fn lemma_split_nonempty(t: Seq<u8>)
    ensures
        split_dots(t).len() >= 1,
    decreases t.len(),
{
    if t.len() > 0 {
        lemma_split_nonempty(t.drop_last());
    }
}

/// A name without dots is a single label.
pub proof fn lemma_split_single_label(t: Seq<u8>)
    requires
        forall|i: int| 0 <= i < t.len() ==> #[trigger] t[i] != DOT,
    ensures
        split_dots(t) == seq![t],
    decreases t.len(),
{
    if t.len() == 0 {
        assert(t =~= Seq::<u8>::empty());
        assert(split_dots(t) =~= seq![t]);
    } else {
        let init = t.drop_last();
        assert forall|i: int| 0 <= i < init.len() implies #[trigger] init[i] != DOT by {
            assert(init[i] == t[i]);
        }
        lemma_split_single_label(init);
        assert(t.last() != DOT);
        assert(init.push(t.last()) =~= t);
        assert(split_dots(t) =~= seq![t]);
    }
}

/// Splitting a name at its dots and joining the labels again gives the name.
pub proof fn lemma_join_split(t: Seq<u8>)
    ensures
        join_dots(split_dots(t)) == t,
    decreases t.len(),
{
    if t.len() > 0 {
        let rest = split_dots(t.drop_last());
        lemma_split_nonempty(t.drop_last());
        lemma_join_split(t.drop_last());
        if t.last() == DOT {
            let ls = rest.push(Seq::<u8>::empty());
            assert(ls.drop_last() =~= rest);
            assert(join_dots(ls) =~= t);
        } else {
            let ls = rest.update(rest.len() - 1, rest.last().push(t.last()));
            if rest.len() == 1 {
                assert(join_dots(ls) =~= t);
            } else {
                assert(ls.drop_last() =~= rest.drop_last());
                assert(join_dots(rest) == join_dots(rest.drop_last()) + seq![DOT] + rest.last());
                assert(join_dots(ls) == join_dots(rest.drop_last()) + seq![DOT] + rest.last().push(t.last()));
                assert(t =~= t.drop_last().push(t.last()));
                assert(join_dots(ls) =~= t);
            }
        }
    }
}

// ---------------------------------------------------------------------------
// Wire form, decoding.

/// The first byte of a compression pointer has its two high bits set.
pub const POINTER_TAG: u8 = 192;

/// The labels of the name whose wire form starts at `pos` in `b`, and the
/// offset just past that wire form (past the zero byte, or past the first
/// compression pointer), or `None` where the bytes do not form a name.
///
/// `seg` is where the current run of labels began: a pointer must lead
/// strictly before it. That keeps every chain of pointers finite, and it holds
/// of every name that a compressor writes, since it points back only at names
/// written earlier.
pub open spec fn decode_labels(b: Seq<u8>, seg: int, pos: int) -> Option<(Seq<Seq<u8>>, int)>
    decreases seg, b.len() - pos,
{
    if !(0 <= seg && can_read(b, pos, 1)) {
        None
    } else {
        let n = b[pos];
        if n == 0 {
            Some((Seq::<Seq<u8>>::empty(), pos + 1))
        } else if n >= POINTER_TAG {
            if !can_read(b, pos + 1, 1) {
                None
            } else {
                let target = (n - POINTER_TAG) * 256 + b[pos + 1];
                if target >= seg {
                    None
                } else {
                    match decode_labels(b, target, target) {
                        Some((ls, _)) => Some((ls, pos + 2)),
                        None => None,
                    }
                }
            }
        } else if n > MAX_LABEL_LEN {
            None
        } else if !can_read(b, pos + 1, n as int) {
            None
        } else {
            match decode_labels(b, seg, pos + 1 + n) {
                Some((ls, e)) => Some((seq![b.subrange(pos + 1, pos + 1 + n)] + ls, e)),
                None => None,
            }
        }
    }
}

/// The text of the name whose wire form starts at `pos` in `b`, and the offset
/// just past that wire form; `None` where the bytes do not form a name or the
/// name is not ASCII.
pub open spec fn decode_name_at(b: Seq<u8>, pos: int) -> Option<(Seq<u8>, int)> {
    match decode_labels(b, pos, pos) {
        Some((ls, e)) => if is_ascii_bytes(join_dots(ls)) {
            Some((join_dots(ls), e))
        } else {
            None
        },
        None => None,
    }
}

/// The wire form of labels, read from the front: the first label's length
/// byte and bytes, then the rest.
pub proof fn lemma_labels_wire_front(ls: Seq<Seq<u8>>)
    requires
        ls.len() >= 1,
    ensures
        labels_wire(ls) == seq![ls[0].len() as u8] + ls[0] + labels_wire(ls.drop_first()),
    decreases ls.len(),
{
    if ls.len() == 1 {
        assert(ls.drop_last() =~= Seq::<Seq<u8>>::empty());
        assert(ls.drop_first() =~= Seq::<Seq<u8>>::empty());
        assert(labels_wire(ls) =~= seq![ls[0].len() as u8] + ls[0] + labels_wire(ls.drop_first()));
    } else {
        let init = ls.drop_last();
        lemma_labels_wire_front(init);
        assert(init.drop_first() =~= ls.drop_first().drop_last());
        assert(ls.drop_first().last() == ls.last());
        assert(labels_wire(ls) =~= seq![ls[0].len() as u8] + ls[0] + labels_wire(ls.drop_first()));
    }
}

/// Labels without a bad one are each 1 to 63 bytes long.
pub proof fn lemma_labels_error_none(ls: Seq<Seq<u8>>)
    requires
        labels_error(ls) is None,
    ensures
        forall|i: int| 0 <= i < ls.len() ==> #[trigger] label_error(ls[i]) is None,
    decreases ls.len(),
{
    if ls.len() > 0 {
        lemma_labels_error_none(ls.drop_last());
        assert forall|i: int| 0 <= i < ls.len() implies #[trigger] label_error(ls[i]) is None by {
            if i < ls.len() - 1 {
                assert(ls[i] == ls.drop_last()[i]);
            }
        }
    }
}

/// Uncompressed wire labels that stand at `pos` decode to those labels, and
/// end just past their zero byte.
pub proof fn lemma_decode_labels_wire(b: Seq<u8>, seg: int, pos: int, ls: Seq<Seq<u8>>)
    requires
        0 <= seg <= pos,
        forall|i: int| 0 <= i < ls.len() ==> #[trigger] label_error(ls[i]) is None,
        pos + labels_wire(ls).len() + 1 <= b.len(),
        b.subrange(pos, pos + labels_wire(ls).len() + 1) == labels_wire(ls) + seq![0u8],
    ensures
        decode_labels(b, seg, pos) == Some((ls, pos + labels_wire(ls).len() + 1)),
    decreases ls.len(),
{
    let w = labels_wire(ls) + seq![0u8];
    assert(b[pos] == w[0]);
    if ls.len() == 0 {
        assert(decode_labels(b, seg, pos) == Some((ls, pos + 1)));
    } else {
        lemma_labels_wire_front(ls);
        let l = ls[0];
        let rest = ls.drop_first();
        let n = l.len();
        assert(label_error(ls[0]) is None);
        assert(1 <= n <= 63);
        assert(b[pos] == n as u8);
        let off1 = pos + 1 + n;
        assert(labels_wire(ls).len() == 1 + n + labels_wire(rest).len());
        assert(b.subrange(pos + 1, off1) =~= l) by {
            assert forall|k: int| 0 <= k < n implies b.subrange(pos + 1, off1)[k] == l[k] by {
                assert(b[pos + 1 + k] == w[1 + k]);
            }
        }
        assert(b.subrange(off1, off1 + labels_wire(rest).len() + 1) =~= labels_wire(rest) + seq![0u8]) by {
            assert forall|k: int| 0 <= k < labels_wire(rest).len() + 1 implies
                b.subrange(off1, off1 + labels_wire(rest).len() + 1)[k] == (labels_wire(rest) + seq![0u8])[k] by {
                assert(b[off1 + k] == w[1 + n + k]);
            }
        }
        assert forall|i: int| 0 <= i < rest.len() implies #[trigger] label_error(rest[i]) is None by {
            assert(rest[i] == ls[i + 1]);
        }
        lemma_decode_labels_wire(b, seg, off1, rest);
        assert(seq![l] + rest =~= ls);
    }
}

/// A compression pointer to an earlier name decodes to that name's text: a
/// name written once in full and once as a bare pointer to it reads the same
/// both times.
pub proof fn lemma_pointer_repeats_name(b: Seq<u8>, s: int, q: int)
    requires
        0 <= s < q,
        s < 16384,
        q + 2 <= b.len(),
        b[q] as int == POINTER_TAG as int + s / 256,
        b[q + 1] as int == s % 256,
    ensures
        decode_name_at(b, q) == match decode_name_at(b, s) {
            Some((t, _)) => Some((t, q + 2)),
            None => None::<(Seq<u8>, int)>,
        },
{
    assert((b[q] - POINTER_TAG) * 256 + b[q + 1] == s);
}

// ---------------------------------------------------------------------------
// The name type and its encoding.

/// A domain name in text form: ASCII labels joined by dots.
#[derive(Debug)]
pub struct DnsName {
    text: Vec<u8>,
}

impl View for DnsName {
    type V = Seq<u8>;

    closed spec fn view(&self) -> Seq<u8> {
        self.text@
    }
}

impl DnsName {
    #[verifier::type_invariant]
    spec fn inv(&self) -> bool {
        is_ascii_bytes(self.text@)
    }

    /// The name written as `s`; fails where `s` holds a character outside ASCII.
    pub fn new(s: String) -> (r: Result<DnsName, DnsError>)
        ensures
            r is Ok <==> s.is_ascii(),
            r is Ok ==> r->Ok_0@ == ascii_bytes(s@),
            r is Err ==> r->Err_0 == DnsError::NonAsciiName,
    {
        if s.is_ascii() {
            let text = ascii_bytes_of(s.as_str());
            Ok(DnsName { text })
        } else {
            Err(DnsError::NonAsciiName)
        }
    }

    /// A name from ASCII bytes.
    pub(crate) fn from_ascii(text: Vec<u8>) -> (r: DnsName)
        requires
            is_ascii_bytes(text@),
        ensures
            r@ == text@,
    {
        DnsName { text }
    }

    /// The name as a string.
    pub fn to_text(&self) -> (r: String)
        ensures
            r@ == ascii_chars(self@),
    {
        proof {
            use_type_invariant(self);
        }
        string_from_ascii(self.text.clone())
    }

    /// The bytes of the name's text.
    pub fn as_bytes(&self) -> (r: &[u8])
        ensures
            r@ == self@,
            is_ascii_bytes(r@),
    {
        proof {
            use_type_invariant(self);
        }
        self.text.as_slice()
    }

    /// The wire form: each label as a length byte and its bytes, then a zero
    /// byte. Fails at the first label that is empty or longer than 63 bytes.
    pub fn encode(self) -> (r: Result<Vec<u8>, DnsError>)
        ensures
            r is Ok <==> labels_error(split_dots(self@)) is None,
            r is Ok ==> r->Ok_0@ == name_wire(self@),
            r is Err ==> labels_error(split_dots(self@)) == Some(r->Err_0),
    {
        let t = self.text.as_slice();
        let mut out: Vec<u8> = Vec::new();
        let mut cur: Vec<u8> = Vec::new();
        let mut err: Option<DnsError> = None;
        let ghost done: Seq<Seq<u8>> = seq![];
        let mut i: usize = 0;
        assert(t@.subrange(0, 0) =~= Seq::<u8>::empty());
        assert(done.push(cur@) =~= seq![Seq::<u8>::empty()]);
        while i < t.len()
            invariant
                i <= t@.len(),
                t@ == self@,
                split_dots(t@.subrange(0, i as int)) == done.push(cur@),
                err == labels_error(done),
                err is None ==> out@ == labels_wire(done),
            decreases t@.len() - i,
        {
            let ghost prev = t@.subrange(0, i as int);
            assert(t@.subrange(0, i + 1).drop_last() =~= prev);
            if t[i] == DOT {
                if err.is_none() {
                    err = check_label(cur.len());
                    if err.is_none() {
                        out.push(cur.len() as u8);
                        push_all(&mut out, cur.as_slice());
                    }
                }
                proof {
                    assert(done.push(cur@).drop_last() =~= done);
                    done = done.push(cur@);
                }
                cur = Vec::new();
                assert(split_dots(t@.subrange(0, i + 1)) =~= done.push(cur@));
            } else {
                cur.push(t[i]);
                assert(split_dots(t@.subrange(0, i + 1)) =~= done.push(cur@));
            }
            i = i + 1;
        }
        assert(t@.subrange(0, i as int) =~= t@);
        assert(done.push(cur@).drop_last() =~= done);
        if err.is_none() {
            err = check_label(cur.len());
        }
        match err {
            Some(e) => Err(e),
            None => {
                out.push(cur.len() as u8);
                push_all(&mut out, cur.as_slice());
                out.push(0u8);
                Ok(out)
            },
        }
    }
}

impl DnsName {
    /// Decodes the name at the reader's cursor, following compression
    /// pointers, and leaves the cursor just past its wire form. Fails where
    /// the bytes do not form a name (see `decode_labels`) or the name is not
    /// ASCII; the cursor is then unspecified.
    pub fn decode(r: &mut Reader) -> (res: Result<DnsName, DnsError>)
        requires
            old(r).wf(),
        ensures
            final(r).wf(),
            final(r).data() == old(r).data(),
            res is Ok <==> decode_name_at(old(r).data(), old(r).pos()) is Some,
            res is Ok ==> ({
                let (t, e) = decode_name_at(old(r).data(), old(r).pos())->Some_0;
                res->Ok_0@ == t && final(r).pos() == e
            }),
            res is Err ==> res->Err_0 == DnsError::CorruptMessage,
    {
        let text = Self::decode_name(r)?;
        if all_ascii(text.as_slice()) {
            Ok(DnsName { text })
        } else {
            Err(DnsError::CorruptMessage)
        }
    }

    /// The dotted text of the labels at the reader's cursor, following
    /// compression pointers; the cursor ends just past the wire form.
    fn decode_name(r: &mut Reader) -> (res: Result<Vec<u8>, DnsError>)
        requires
            old(r).wf(),
        ensures
            final(r).wf(),
            final(r).data() == old(r).data(),
            res is Ok <==> decode_labels(old(r).data(), old(r).pos(), old(r).pos()) is Some,
            res is Ok ==> ({
                let (ls, e) = decode_labels(old(r).data(), old(r).pos(), old(r).pos())->Some_0;
                res->Ok_0@ == join_dots(ls) && final(r).pos() == e
            }),
            res is Err ==> res->Err_0 == DnsError::CorruptMessage,
    {
        let ghost b = r.data();
        let ghost start = r.pos();
        let mut seg: usize = r.tell();
        let mut end: Option<usize> = None;
        let mut text: Vec<u8> = Vec::new();
        let ghost mut acc: Seq<Seq<u8>> = seq![];
        let mut any_label = false;
        loop
            invariant
                r.wf(),
                b == old(r).data(),
                start == old(r).pos(),
                any_label == (acc.len() > 0),
                r.data() == b,
                seg <= r.pos(),
                text@ == join_dots(acc),
                end is Some ==> end->Some_0 <= b.len(),
                decode_labels(b, start, start) == match decode_labels(b, seg as int, r.pos()) {
                    Some((ls, e)) => Some((acc + ls, if end is Some { end->Some_0 as int } else { e })),
                    None => None::<(Seq<Seq<u8>>, int)>,
                },
            decreases seg, b.len() - r.pos(),
        {
            let ghost pos = r.pos();
            let n = match r.read(1) {
                Ok(s) => s[0],
                Err(e) => return Err(e),
            };
            if n == 0 {
                assert(acc + Seq::<Seq<u8>>::empty() =~= acc);
                match end {
                    Some(e) => {
                        r.seek(e)?;
                    },
                    None => {},
                }
                return Ok(text);
            } else if n >= POINTER_TAG {
                let low = match r.read(1) {
                    Ok(s) => s[0],
                    Err(e) => return Err(e),
                };
                let target: usize = ((n - POINTER_TAG) as usize) * 256 + low as usize;
                if target >= seg {
                    return Err(DnsError::CorruptMessage);
                }
                if end.is_none() {
                    end = Some(r.tell());
                }
                seg = target;
                r.seek(target)?;
            } else if n as usize > MAX_LABEL_LEN {
                return Err(DnsError::CorruptMessage);
            } else {
                let label = match r.read(n as usize) {
                    Ok(s) => s,
                    Err(e) => return Err(e),
                };
                if any_label {
                    text.push(DOT);
                }
                any_label = true;
                push_all(&mut text, label);
                proof {
                    let next = acc.push(label@);
                    assert(next.drop_last() =~= acc);
                    match decode_labels(b, seg as int, r.pos()) {
                        Some((ls, e)) => {
                            assert(acc + (seq![label@] + ls) =~= next + ls);
                        },
                        None => {},
                    }
                    acc = next;
                }
            }
        }
    }
}

/// What is wrong with a label of `len` bytes, if anything.
fn check_label(len: usize) -> (r: Option<DnsError>)
    ensures
        forall|l: Seq<u8>| l.len() == len ==> r == #[trigger] label_error(l),
{
    if len == 0 {
        Some(DnsError::EmptyLabel)
    } else if len > MAX_LABEL_LEN {
        Some(DnsError::LabelTooLong)
    } else {
        None
    }
}

} // verus!
