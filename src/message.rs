use vstd::prelude::*;
use vstd::slice::slice_to_vec;

use crate::error::DnsError;
use crate::header::{
    be16, be16_bytes, be32, decode_header_at, get_u16, get_u32, header_wire,
    lemma_be16_round_trip, lemma_decode_header_wire, put_u16, query_header, DnsHeader,
};
use crate::ipv4::{dotted_quad, IPv4};
use crate::name::{
    decode_name_at, labels_error, labels_wire, lemma_decode_labels_wire, lemma_join_split,
    lemma_labels_error_none, lemma_split_single_label, name_wire, split_dots, valid_name, DnsName,
    DOT, MAX_LABEL_LEN,
};
use crate::reader::{can_read, Reader};
use crate::text::{ascii_bytes, ascii_chars, is_ascii_bytes};

verus! {

/// Record type of an IPv4 address record.
pub const TYPE_A: u16 = 1;

/// Record type of a name server record.
pub const TYPE_NS: u16 = 2;

/// The Internet class, the only class this resolver asks for.
pub const CLASS_IN: u16 = 1;

// ---------------------------------------------------------------------------
// Models.

/// What a question says: a name, a record type and a class.
pub struct QuestionView {
    pub name: Seq<u8>,
    pub qtype: u16,
    pub qclass: u16,
}

/// What a record's data means: an address for type A, a name for type NS,
/// nothing interpreted for any other type.
pub enum DataView {
    DomainName(Seq<u8>),
    IpAddr(Seq<u8>),
    Other,
}

/// What a resource record says.
pub struct RecordView {
    pub name: Seq<u8>,
    pub rtype: u16,
    pub rclass: u16,
    pub ttl: u32,
    pub data: Seq<u8>,
    pub parsed: DataView,
}

/// What a message says: its header and its four sections, in wire order.
pub struct PacketView {
    pub header: DnsHeader,
    pub questions: Seq<QuestionView>,
    pub answers: Seq<RecordView>,
    pub authorities: Seq<RecordView>,
    pub additionals: Seq<RecordView>,
}

// ---------------------------------------------------------------------------
// Wire form.

/// The wire form of a question: its name, type and class.
pub open spec fn question_wire(q: QuestionView) -> Seq<u8> {
    name_wire(q.name) + be16_bytes(q.qtype) + be16_bytes(q.qclass)
}

/// The question whose wire form starts at `pos`, and the offset past it.
pub open spec fn decode_question_at(b: Seq<u8>, pos: int) -> Option<(QuestionView, int)> {
    match decode_name_at(b, pos) {
        Some((t, off1)) => if can_read(b, off1, 4) {
            Some((QuestionView { name: t, qtype: be16(b, off1), qclass: be16(b, off1 + 2) }, off1 + 4))
        } else {
            None
        },
        None => None,
    }
}

/// How the data of a record of type `rtype` reads, where the data is
/// `data` and starts at `at` in `b`; `None` for an address record whose
/// data is not four bytes, or a name server record whose data is no name.
pub open spec fn parse_data_at(b: Seq<u8>, rtype: u16, at: int, data: Seq<u8>) -> Option<DataView> {
    if rtype == TYPE_A {
        if data.len() == 4 {
            Some(DataView::IpAddr(data))
        } else {
            None
        }
    } else if rtype == TYPE_NS {
        match decode_name_at(b, at) {
            Some((t, _)) => Some(DataView::DomainName(t)),
            None => None,
        }
    } else {
        Some(DataView::Other)
    }
}

/// The record whose wire form starts at `pos`, and the offset past it.
pub open spec fn decode_record_at(b: Seq<u8>, pos: int) -> Option<(RecordView, int)> {
    match decode_name_at(b, pos) {
        Some((t, off1)) => if !can_read(b, off1, 10) {
            None
        } else {
            let rtype = be16(b, off1);
            let len = be16(b, off1 + 8) as int;
            let at = off1 + 10;
            if !can_read(b, at, len) {
                None
            } else {
                let data = b.subrange(at, at + len);
                match parse_data_at(b, rtype, at, data) {
                    Some(d) => Some(
                        (
                            RecordView {
                                name: t,
                                rtype,
                                rclass: be16(b, off1 + 2),
                                ttl: be32(b, off1 + 4),
                                data,
                                parsed: d,
                            },
                            at + len,
                        ),
                    ),
                    None => None,
                }
            }
        },
        None => None,
    }
}

/// `n` questions, one after the other from `pos`, and the offset past them.
pub open spec fn decode_questions(b: Seq<u8>, pos: int, n: nat) -> Option<(Seq<QuestionView>, int)>
    decreases n,
{
    if n == 0 {
        Some((Seq::<QuestionView>::empty(), pos))
    } else {
        match decode_question_at(b, pos) {
            Some((q, off1)) => match decode_questions(b, off1, (n - 1) as nat) {
                Some((qs, e)) => Some((seq![q] + qs, e)),
                None => None,
            },
            None => None,
        }
    }
}

/// `n` records, one after the other from `pos`, and the offset past them.
pub open spec fn decode_records(b: Seq<u8>, pos: int, n: nat) -> Option<(Seq<RecordView>, int)>
    decreases n,
{
    if n == 0 {
        Some((Seq::<RecordView>::empty(), pos))
    } else {
        match decode_record_at(b, pos) {
            Some((rec, off1)) => match decode_records(b, off1, (n - 1) as nat) {
                Some((rs, e)) => Some((seq![rec] + rs, e)),
                None => None,
            },
            None => None,
        }
    }
}

/// The message whose wire form starts at `pos`: a header, then as many
/// questions, answers, authority records and additional records as it
/// counts; and the offset past the last of them.
pub open spec fn decode_packet_at(b: Seq<u8>, pos: int) -> Option<(PacketView, int)> {
    match decode_header_at(b, pos) {
        Some((h, off1)) => match decode_questions(b, off1, h.num_questions as nat) {
            Some((qs, off2)) => match decode_records(b, off2, h.num_answers as nat) {
                Some((ans, off3)) => match decode_records(b, off3, h.num_authorities as nat) {
                    Some((auth, off4)) => match decode_records(b, off4, h.num_additionals as nat) {
                        Some((add, off5)) => Some(
                            (
                                PacketView {
                                    header: h,
                                    questions: qs,
                                    answers: ans,
                                    authorities: auth,
                                    additionals: add,
                                },
                                off5,
                            ),
                        ),
                        None => None,
                    },
                    None => None,
                },
                None => None,
            },
            None => None,
        },
        None => None,
    }
}

// ---------------------------------------------------------------------------
// Questions.

/// A question: a name, the record type asked for, and the class.
#[derive(Debug)]
pub struct DnsQuestion {
    name: DnsName,
    qtype: u16,
    qclass: u16,
}

impl View for DnsQuestion {
    type V = QuestionView;

    closed spec fn view(&self) -> QuestionView {
        QuestionView { name: self.name@, qtype: self.qtype, qclass: self.qclass }
    }
}

impl DnsQuestion {
    /// A question for records of type `record_type` of `name`, in the
    /// Internet class; fails where `name` holds a character outside ASCII.
    pub fn new_for_name(name: String, record_type: u16) -> (r: Result<DnsQuestion, DnsError>)
        ensures
            r is Ok <==> name.is_ascii(),
            r is Ok ==> r->Ok_0@ == (QuestionView {
                name: ascii_bytes(name@),
                qtype: record_type,
                qclass: CLASS_IN,
            }),
            r is Err ==> r->Err_0 == DnsError::NonAsciiName,
    {
        let name = DnsName::new(name)?;
        Ok(DnsQuestion { name, qtype: record_type, qclass: CLASS_IN })
    }

    /// A question for records of type `record_type` of `name`, in the
    /// Internet class.
    pub(crate) fn from_name(name: DnsName, record_type: u16) -> (r: DnsQuestion)
        ensures
            r@ == (QuestionView { name: name@, qtype: record_type, qclass: CLASS_IN }),
    {
        DnsQuestion { name, qtype: record_type, qclass: CLASS_IN }
    }

    /// The name asked about.
    pub fn name(&self) -> (r: &DnsName)
        ensures
            r@ == self@.name,
    {
        &self.name
    }

    /// The record type asked for.
    pub fn qtype(&self) -> (r: u16)
        ensures
            r == self@.qtype,
    {
        self.qtype
    }

    /// The class asked for.
    pub fn qclass(&self) -> (r: u16)
        ensures
            r == self@.qclass,
    {
        self.qclass
    }

    /// Reads a question at the reader's cursor and moves past it.
    pub fn decode(r: &mut Reader) -> (res: Result<DnsQuestion, DnsError>)
        requires
            old(r).wf(),
        ensures
            final(r).wf(),
            final(r).data() == old(r).data(),
            res is Ok <==> decode_question_at(old(r).data(), old(r).pos()) is Some,
            res is Ok ==> ({
                let (q, e) = decode_question_at(old(r).data(), old(r).pos())->Some_0;
                res->Ok_0@ == q && final(r).pos() == e
            }),
            res is Err ==> res->Err_0 == DnsError::CorruptMessage,
    {
        let name = DnsName::decode(r)?;
        let s = match r.read(4) {
            Ok(s) => s,
            Err(e) => return Err(e),
        };
        Ok(DnsQuestion { name, qtype: get_u16(s, 0), qclass: get_u16(s, 2) })
    }

    /// The wire form: the name, then type and class. Fails at the first label
    /// of the name that is empty or longer than 63 bytes.
    pub fn encode(self) -> (r: Result<Vec<u8>, DnsError>)
        ensures
            r is Ok <==> labels_error(split_dots(self@.name)) is None,
            r is Ok ==> r->Ok_0@ == question_wire(self@),
            r is Err ==> labels_error(split_dots(self@.name)) == Some(r->Err_0),
    {
        let ghost q = self@;
        let mut out = self.name.encode()?;
        put_u16(&mut out, self.qtype);
        put_u16(&mut out, self.qclass);
        assert(out@ =~= question_wire(q));
        Ok(out)
    }
}

// ---------------------------------------------------------------------------
// Records.

/// A record's data, read according to its type.
#[derive(Debug)]
pub enum ParsedData {
    DomainName(DnsName),
    IpAddr(IPv4),
    Other,
}

impl View for ParsedData {
    type V = DataView;

    open spec fn view(&self) -> DataView {
        match self {
            ParsedData::DomainName(n) => DataView::DomainName(n@),
            ParsedData::IpAddr(a) => DataView::IpAddr(a@),
            ParsedData::Other => DataView::Other,
        }
    }
}

impl ParsedData {
    /// The address held in an address record's data; `None` unless the data
    /// is exactly four bytes.
    pub fn parse_ip_address(data: &[u8]) -> (r: Option<ParsedData>)
        ensures
            r is Some <==> data@.len() == 4,
            r is Some ==> r->Some_0@ == DataView::IpAddr(data@),
    {
        match IPv4::from_bytes(data) {
            Some(a) => Some(ParsedData::IpAddr(a)),
            None => None,
        }
    }

    /// The name at the reader's cursor, as a name server record's data.
    pub fn parse_domain_name(r: &mut Reader) -> (res: Result<ParsedData, DnsError>)
        requires
            old(r).wf(),
        ensures
            final(r).wf(),
            final(r).data() == old(r).data(),
            res is Ok <==> decode_name_at(old(r).data(), old(r).pos()) is Some,
            res is Ok ==> ({
                let (t, e) = decode_name_at(old(r).data(), old(r).pos())->Some_0;
                res->Ok_0@ == DataView::DomainName(t) && final(r).pos() == e
            }),
            res is Err ==> res->Err_0 == DnsError::CorruptMessage,
    {
        let n = DnsName::decode(r)?;
        Ok(ParsedData::DomainName(n))
    }

    /// The data of a record of any other type, left uninterpreted.
    pub fn other(_data: &[u8]) -> (r: ParsedData)
        ensures
            r@ == DataView::Other,
    {
        ParsedData::Other
    }
}

/// A resource record: owner name, type, class, time to live, raw data, and
/// the data read according to the type.
#[derive(Debug)]
pub struct DnsRecord {
    name: DnsName,
    rtype: u16,
    rclass: u16,
    ttl: u32,
    data: Vec<u8>,
    parsed_data: ParsedData,
}

impl View for DnsRecord {
    type V = RecordView;

    closed spec fn view(&self) -> RecordView {
        RecordView {
            name: self.name@,
            rtype: self.rtype,
            rclass: self.rclass,
            ttl: self.ttl,
            data: self.data@,
            parsed: self.parsed_data@,
        }
    }
}

impl DnsRecord {
    /// Reads a record at the reader's cursor and moves past its data. The
    /// data of a name server record is read as a name that starts where the
    /// data starts, so that pointers in it reach the whole message.
    pub fn decode(r: &mut Reader) -> (res: Result<DnsRecord, DnsError>)
        requires
            old(r).wf(),
        ensures
            final(r).wf(),
            final(r).data() == old(r).data(),
            res is Ok <==> decode_record_at(old(r).data(), old(r).pos()) is Some,
            res is Ok ==> ({
                let (rec, e) = decode_record_at(old(r).data(), old(r).pos())->Some_0;
                res->Ok_0@ == rec && final(r).pos() == e
            }),
            res is Err ==> res->Err_0 == DnsError::CorruptMessage,
    {
        let ghost b = r.data();
        let ghost p = r.pos();
        let name = DnsName::decode(r)?;
        let ghost off1 = r.pos();
        let fixed = match r.read(10) {
            Ok(s) => s,
            Err(e) => return Err(e),
        };
        proof {
            assert forall|k: int| 0 <= k < 10 implies fixed@[k] == b[off1 + k] by {}
        }
        let rtype = get_u16(fixed, 0);
        let rclass = get_u16(fixed, 2);
        let ttl = get_u32(fixed, 4);
        let data_len = get_u16(fixed, 8);
        let at = r.tell();
        let raw = match r.read(data_len as usize) {
            Ok(s) => s,
            Err(e) => return Err(e),
        };
        let end = r.tell();
        let parsed_data = if rtype == TYPE_A {
            match ParsedData::parse_ip_address(raw) {
                Some(d) => d,
                None => return Err(DnsError::CorruptMessage),
            }
        } else if rtype == TYPE_NS {
            r.seek(at)?;
            let d = ParsedData::parse_domain_name(r)?;
            r.seek(end)?;
            d
        } else {
            ParsedData::other(raw)
        };
        let data = slice_to_vec(raw);
        Ok(DnsRecord { name, rtype, rclass, ttl, data, parsed_data })
    }

    /// The owner name.
    pub fn name(&self) -> (r: &DnsName)
        ensures
            r@ == self@.name,
    {
        &self.name
    }

    /// The record type.
    pub fn rtype(&self) -> (r: u16)
        ensures
            r == self@.rtype,
    {
        self.rtype
    }

    /// The class.
    pub fn rclass(&self) -> (r: u16)
        ensures
            r == self@.rclass,
    {
        self.rclass
    }

    /// The time to live, in seconds.
    pub fn ttl(&self) -> (r: u32)
        ensures
            r == self@.ttl,
    {
        self.ttl
    }

    /// The raw data.
    pub fn data(&self) -> (r: &[u8])
        ensures
            r@ == self@.data,
    {
        self.data.as_slice()
    }

    /// The data read according to the record type.
    pub fn parsed_data(&self) -> (r: &ParsedData)
        ensures
            r@ == self@.parsed,
    {
        &self.parsed_data
    }
}

// ---------------------------------------------------------------------------
// Messages.

/// The octets of the first address record among `rs`, if any.
pub open spec fn first_address(rs: Seq<RecordView>) -> Option<Seq<u8>>
    decreases rs.len(),
{
    if rs.len() == 0 {
        None
    } else {
        match rs[0].parsed {
            DataView::IpAddr(a) => Some(a),
            _ => first_address(rs.drop_first()),
        }
    }
}

/// The name held by the first name server record among `rs`, if any.
pub open spec fn first_domain(rs: Seq<RecordView>) -> Option<Seq<u8>>
    decreases rs.len(),
{
    if rs.len() == 0 {
        None
    } else {
        match rs[0].parsed {
            DataView::DomainName(t) => Some(t),
            _ => first_domain(rs.drop_first()),
        }
    }
}

/// The views of a list of records.
pub open spec fn record_views(v: Seq<DnsRecord>) -> Seq<RecordView> {
    v.map_values(|r: DnsRecord| r@)
}

/// A decoded message.
#[derive(Debug)]
pub struct DnsPacket {
    pub header: DnsHeader,
    pub questions: Vec<DnsQuestion>,
    pub answers: Vec<DnsRecord>,
    pub authorities: Vec<DnsRecord>,
    pub additionals: Vec<DnsRecord>,
}

impl View for DnsPacket {
    type V = PacketView;

    open spec fn view(&self) -> PacketView {
        PacketView {
            header: self.header,
            questions: self.questions@.map_values(|q: DnsQuestion| q@),
            answers: record_views(self.answers@),
            authorities: record_views(self.authorities@),
            additionals: record_views(self.additionals@),
        }
    }
}

/// Reads `n` questions in a row.
fn decode_question_list(r: &mut Reader, n: u16) -> (res: Result<Vec<DnsQuestion>, DnsError>)
    requires
        old(r).wf(),
    ensures
        final(r).wf(),
        final(r).data() == old(r).data(),
        res is Ok <==> decode_questions(old(r).data(), old(r).pos(), n as nat) is Some,
        res is Ok ==> ({
            let (qs, e) = decode_questions(old(r).data(), old(r).pos(), n as nat)->Some_0;
            res->Ok_0@.map_values(|q: DnsQuestion| q@) == qs && final(r).pos() == e
        }),
        res is Err ==> res->Err_0 == DnsError::CorruptMessage,
{
    let ghost b = r.data();
    let ghost start = r.pos();
    let mut out: Vec<DnsQuestion> = Vec::new();
    let mut i: u16 = 0;
    while i < n
        invariant
            r.wf(),
            r.data() == b,
            b == old(r).data(),
            start == old(r).pos(),
            i <= n,
            decode_questions(b, start, n as nat) == match decode_questions(b, r.pos(), (n - i) as nat) {
                Some((rest, e)) => Some((out@.map_values(|q: DnsQuestion| q@) + rest, e)),
                None => None::<(Seq<QuestionView>, int)>,
            },
        decreases n - i,
    {
        let ghost before = out@.map_values(|q: DnsQuestion| q@);
        let q = DnsQuestion::decode(r)?;
        let ghost qv = q@;
        out.push(q);
        i = i + 1;
        proof {
            assert(out@.map_values(|q: DnsQuestion| q@) =~= before.push(qv));
            match decode_questions(b, r.pos(), (n - i) as nat) {
                Some((rest, e)) => {
                    assert(before + (seq![qv] + rest) =~= before.push(qv) + rest);
                },
                None => {},
            }
        }
    }
    assert(out@.map_values(|q: DnsQuestion| q@) + Seq::<QuestionView>::empty() =~= out@.map_values(|q: DnsQuestion| q@));
    Ok(out)
}

/// Reads `n` records in a row.
fn decode_record_list(r: &mut Reader, n: u16) -> (res: Result<Vec<DnsRecord>, DnsError>)
    requires
        old(r).wf(),
    ensures
        final(r).wf(),
        final(r).data() == old(r).data(),
        res is Ok <==> decode_records(old(r).data(), old(r).pos(), n as nat) is Some,
        res is Ok ==> ({
            let (rs, e) = decode_records(old(r).data(), old(r).pos(), n as nat)->Some_0;
            record_views(res->Ok_0@) == rs && final(r).pos() == e
        }),
        res is Err ==> res->Err_0 == DnsError::CorruptMessage,
{
    let ghost b = r.data();
    let ghost start = r.pos();
    let mut out: Vec<DnsRecord> = Vec::new();
    let mut i: u16 = 0;
    while i < n
        invariant
            r.wf(),
            r.data() == b,
            b == old(r).data(),
            start == old(r).pos(),
            i <= n,
            decode_records(b, start, n as nat) == match decode_records(b, r.pos(), (n - i) as nat) {
                Some((rest, e)) => Some((record_views(out@) + rest, e)),
                None => None::<(Seq<RecordView>, int)>,
            },
        decreases n - i,
    {
        let ghost before = record_views(out@);
        let rec = DnsRecord::decode(r)?;
        let ghost rv = rec@;
        out.push(rec);
        i = i + 1;
        proof {
            assert(record_views(out@) =~= before.push(rv));
            match decode_records(b, r.pos(), (n - i) as nat) {
                Some((rest, e)) => {
                    assert(before + (seq![rv] + rest) =~= before.push(rv) + rest);
                },
                None => {},
            }
        }
    }
    assert(record_views(out@) + Seq::<RecordView>::empty() =~= record_views(out@));
    Ok(out)
}

/// The address of the first address record in `rs`.
pub(crate) fn first_address_in(rs: &Vec<DnsRecord>) -> (r: Option<IPv4>)
    ensures
        r is Some <==> first_address(record_views(rs@)) is Some,
        r is Some ==> r->Some_0@ == first_address(record_views(rs@))->Some_0,
{
    let ghost all = record_views(rs@);
    assert(all.subrange(0, all.len() as int) =~= all);
    let mut i: usize = 0;
    while i < rs.len()
        invariant
            i <= rs@.len(),
            all == record_views(rs@),
            first_address(all) == first_address(all.subrange(i as int, all.len() as int)),
        decreases rs@.len() - i,
    {
        let ghost rest = all.subrange(i as int, all.len() as int);
        assert(rest[0] == rs@[i as int]@);
        assert(rest.drop_first() =~= all.subrange(i + 1, all.len() as int));
        match rs[i].parsed_data() {
            ParsedData::IpAddr(a) => {
                return Some(*a);
            },
            _ => {},
        }
        i = i + 1;
    }
    None
}

/// The name held by the first name server record in `rs`.
pub(crate) fn first_domain_in(rs: &Vec<DnsRecord>) -> (r: Option<&DnsName>)
    ensures
        r is Some <==> first_domain(record_views(rs@)) is Some,
        r is Some ==> r->Some_0@ == first_domain(record_views(rs@))->Some_0,
{
    let ghost all = record_views(rs@);
    assert(all.subrange(0, all.len() as int) =~= all);
    let mut i: usize = 0;
    while i < rs.len()
        invariant
            i <= rs@.len(),
            all == record_views(rs@),
            first_domain(all) == first_domain(all.subrange(i as int, all.len() as int)),
        decreases rs@.len() - i,
    {
        let ghost rest = all.subrange(i as int, all.len() as int);
        assert(rest[0] == rs@[i as int]@);
        assert(rest.drop_first() =~= all.subrange(i + 1, all.len() as int));
        match rs[i].parsed_data() {
            ParsedData::DomainName(n) => {
                return Some(n);
            },
            _ => {},
        }
        i = i + 1;
    }
    None
}

impl DnsPacket {
    /// Reads a whole message at the reader's cursor: the header, then exactly
    /// as many questions, answers, authority records and additional records
    /// as it counts, in that order. Fails where the bytes run out first or
    /// any entry is malformed.
    pub fn decode(r: &mut Reader) -> (res: Result<DnsPacket, DnsError>)
        requires
            old(r).wf(),
        ensures
            final(r).wf(),
            final(r).data() == old(r).data(),
            res is Ok <==> decode_packet_at(old(r).data(), old(r).pos()) is Some,
            res is Ok ==> ({
                let (pk, e) = decode_packet_at(old(r).data(), old(r).pos())->Some_0;
                res->Ok_0@ == pk && final(r).pos() == e
            }),
            res is Err ==> res->Err_0 == DnsError::CorruptMessage,
    {
        let header = DnsHeader::decode(r)?;
        let questions = decode_question_list(r, header.num_questions)?;
        let answers = decode_record_list(r, header.num_answers)?;
        let authorities = decode_record_list(r, header.num_authorities)?;
        let additionals = decode_record_list(r, header.num_additionals)?;
        Ok(DnsPacket { header, questions, answers, authorities, additionals })
    }

    /// The header.
    pub fn header(&self) -> (r: DnsHeader)
        ensures
            r == self@.header,
    {
        self.header
    }

    /// The questions, in wire order.
    pub fn questions(&self) -> (r: &[DnsQuestion])
        ensures
            r@.map_values(|q: DnsQuestion| q@) == self@.questions,
    {
        self.questions.as_slice()
    }

    /// The address of the first address record among the answers, as text.
    pub fn parse_ip_address(&self) -> (r: Result<String, DnsError>)
        ensures
            r is Ok <==> first_address(self@.answers) is Some,
            r is Ok ==> r->Ok_0@ == ascii_chars(dotted_quad(first_address(self@.answers)->Some_0)),
            r is Err ==> r->Err_0 == DnsError::Unresolvable,
    {
        match first_address_in(&self.answers) {
            Some(a) => Ok(a.to_text()),
            None => Err(DnsError::Unresolvable),
        }
    }

    /// The address of the first address record among the additional
    /// records (glue for a delegated name server), as text.
    pub fn parse_next_name_server_ip(&self) -> (r: Result<String, DnsError>)
        ensures
            r is Ok <==> first_address(self@.additionals) is Some,
            r is Ok ==> r->Ok_0@ == ascii_chars(dotted_quad(first_address(self@.additionals)->Some_0)),
            r is Err ==> r->Err_0 == DnsError::Unresolvable,
    {
        match first_address_in(&self.additionals) {
            Some(a) => Ok(a.to_text()),
            None => Err(DnsError::Unresolvable),
        }
    }

    /// The name held by the first name server record among the authority
    /// records, as text.
    pub fn parse_next_name_server_domain(&self) -> (r: Result<String, DnsError>)
        ensures
            r is Ok <==> first_domain(self@.authorities) is Some,
            r is Ok ==> r->Ok_0@ == ascii_chars(first_domain(self@.authorities)->Some_0),
            r is Err ==> r->Err_0 == DnsError::Unresolvable,
    {
        match first_domain_in(&self.authorities) {
            Some(n) => Ok(n.to_text()),
            None => Err(DnsError::Unresolvable),
        }
    }
}

// ---------------------------------------------------------------------------
// Queries.

/// The wire form of a query: a header with the given id and flags, one
/// question and no records, then that question for `name` in the Internet
/// class.
pub open spec fn query_wire(id: u16, flags: u16, name: Seq<u8>, qtype: u16) -> Seq<u8> {
    header_wire(query_header(id, flags)) + question_wire(
        QuestionView { name, qtype, qclass: CLASS_IN },
    )
}

/// What a query decodes to.
pub open spec fn query_view(id: u16, flags: u16, name: Seq<u8>, qtype: u16) -> PacketView {
    PacketView {
        header: query_header(id, flags),
        questions: seq![QuestionView { name, qtype, qclass: CLASS_IN }],
        answers: Seq::<RecordView>::empty(),
        authorities: Seq::<RecordView>::empty(),
        additionals: Seq::<RecordView>::empty(),
    }
}

/// In any buffer that holds the wire form of a valid name at `pos`, the
/// name decodes there to its text and ends where its wire form ends.
pub proof fn lemma_decode_name_wire(b: Seq<u8>, pos: int, t: Seq<u8>)
    requires
        valid_name(t),
        0 <= pos,
        pos + name_wire(t).len() <= b.len(),
        b.subrange(pos, pos + name_wire(t).len()) == name_wire(t),
    ensures
        decode_name_at(b, pos) == Some((t, pos + name_wire(t).len())),
{
    let ls = split_dots(t);
    lemma_labels_error_none(ls);
    lemma_decode_labels_wire(b, pos, pos, ls);
    lemma_join_split(t);
}

/// Decoding an encoded query gives back its id, flags and counts, and the
/// name, type and class of its one question; it uses every byte.
pub proof fn lemma_query_round_trip(id: u16, flags: u16, name: Seq<u8>, qtype: u16)
    requires
        valid_name(name),
    ensures
        decode_packet_at(query_wire(id, flags, name, qtype), 0) == Some(
            (query_view(id, flags, name, qtype), query_wire(id, flags, name, qtype).len() as int),
        ),
{
    let w = query_wire(id, flags, name, qtype);
    let h = query_header(id, flags);
    let nw = name_wire(name);
    let off1: int = 12 + nw.len() as int;
    assert(w.subrange(0, 12) =~= header_wire(h));
    lemma_decode_header_wire(w, 0, h);
    assert(w.subrange(12, off1) =~= nw);
    lemma_decode_name_wire(w, 12, name);
    assert(w.subrange(off1, off1 + 2) =~= be16_bytes(qtype));
    assert(w.subrange(off1 + 2, off1 + 4) =~= be16_bytes(CLASS_IN));
    lemma_be16_round_trip(w, off1, qtype);
    lemma_be16_round_trip(w, off1 + 2, CLASS_IN);
    let q = QuestionView { name, qtype, qclass: CLASS_IN };
    assert(decode_question_at(w, 12) == Some((q, off1 + 4)));
    assert(decode_questions(w, off1 + 4, 0) == Some((Seq::<QuestionView>::empty(), off1 + 4)));
    assert(seq![q] + Seq::<QuestionView>::empty() =~= seq![q]);
    assert(decode_questions(w, 12, 1) == Some((seq![q], off1 + 4)));
    assert(decode_records(w, off1 + 4, 0) == Some((Seq::<RecordView>::empty(), off1 + 4)));
}

/// A single label of exactly 63 bytes encodes, and a query for it decodes
/// back to it; one of 64 bytes is refused as too long.
pub proof fn lemma_label_length_boundary(l: Seq<u8>, id: u16, flags: u16, qtype: u16)
    requires
        is_ascii_bytes(l),
        forall|i: int| 0 <= i < l.len() ==> #[trigger] l[i] != DOT,
    ensures
        l.len() == MAX_LABEL_LEN ==> labels_error(split_dots(l)) is None
            && name_wire(l) == seq![MAX_LABEL_LEN as u8] + l + seq![0u8]
            && decode_packet_at(query_wire(id, flags, l, qtype), 0) == Some(
                (query_view(id, flags, l, qtype), query_wire(id, flags, l, qtype).len() as int),
            ),
        l.len() == MAX_LABEL_LEN + 1 ==> labels_error(split_dots(l)) == Some(DnsError::LabelTooLong),
{
    lemma_split_single_label(l);
    let ls = seq![l];
    assert(ls.drop_last() =~= Seq::<Seq<u8>>::empty());
    assert(labels_error(Seq::<Seq<u8>>::empty()) is None);
    assert(labels_error(ls) == crate::name::label_error(l));
    if l.len() == MAX_LABEL_LEN {
        assert(labels_wire(Seq::<Seq<u8>>::empty()) == Seq::<u8>::empty());
        assert(labels_wire(ls) =~= seq![MAX_LABEL_LEN as u8] + l);
        lemma_query_round_trip(id, flags, l, qtype);
    }
}

/// An encoded query that lost its last byte does not decode: the class of
/// its question can no longer be read.
pub proof fn lemma_truncated_query_fails(id: u16, flags: u16, name: Seq<u8>, qtype: u16)
    requires
        valid_name(name),
    ensures
        decode_packet_at(query_wire(id, flags, name, qtype).drop_last(), 0) is None,
{
    let w = query_wire(id, flags, name, qtype);
    let b = w.drop_last();
    let h = query_header(id, flags);
    let nw = name_wire(name);
    let off1: int = 12 + nw.len() as int;
    assert(b.subrange(0, 12) =~= header_wire(h));
    lemma_decode_header_wire(b, 0, h);
    assert(b.subrange(12, off1) =~= nw);
    lemma_decode_name_wire(b, 12, name);
    assert(decode_question_at(b, 12) is None);
    assert(decode_questions(b, 12, 1) is None);
}

} // verus!
