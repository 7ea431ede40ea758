use vstd::prelude::*;

use crate::error::DnsError;
use crate::header::DnsHeader;
use crate::ipv4::{dotted_quad, IPv4};
use crate::message::{
    decode_packet_at, first_address, first_address_in, first_domain, first_domain_in, query_wire,
    DnsPacket, DnsQuestion, PacketView, QuestionView, CLASS_IN, TYPE_A,
};
use crate::name::{labels_error, split_dots, DnsName};
use crate::reader::Reader;
use crate::text::{ascii_bytes, ascii_bytes_of, ascii_chars, is_ascii_bytes, string_from_ascii};
use vstd::slice::slice_to_vec;

verus! {

/// What encoding a query for the name `name` (its text bytes) gives: its
/// wire form, or the error of its first bad label.
pub open spec fn query_result(id: u16, flags: u16, name: Seq<u8>, qtype: u16) -> Result<Seq<u8>, DnsError> {
    match labels_error(split_dots(name)) {
        Some(e) => Err(e),
        None => Ok(query_wire(id, flags, name, qtype)),
    }
}

/// The query for records of type `record_type` of `name`, under `header`.
fn encode_query(header: DnsHeader, name: DnsName, record_type: u16) -> (r: Result<Vec<u8>, DnsError>)
    requires
        header.num_questions == 1,
        header.num_answers == 0,
        header.num_authorities == 0,
        header.num_additionals == 0,
    ensures
        r is Ok <==> query_result(header.id, header.flags, name@, record_type) is Ok,
        r is Ok ==> r->Ok_0@ == query_result(header.id, header.flags, name@, record_type)->Ok_0,
        r is Err ==> query_result(header.id, header.flags, name@, record_type) == Err::<Seq<u8>, DnsError>(r->Err_0),
{
    let question = DnsQuestion::from_name(name, record_type);
    let mut out = header.encode();
    let mut q = question.encode()?;
    out.append(&mut q);
    Ok(out)
}

/// The query, under the given id, for records of type `record_type` of
/// `name`, with the given flags (0 asks for no recursion). Fails where the
/// name holds a character outside ASCII, or at its first label that is
/// empty or longer than 63 bytes.
pub fn build_query_with_id(id: u16, name: &str, record_type: u16, flags: u16) -> (r: Result<Vec<u8>, DnsError>)
    ensures
        !name.is_ascii() ==> r == Err::<Vec<u8>, DnsError>(DnsError::NonAsciiName),
        name.is_ascii() ==> {
            let q = query_result(id, flags, ascii_bytes(name@), record_type);
            &&& r is Ok <==> q is Ok
            &&& r is Ok ==> r->Ok_0@ == q->Ok_0
            &&& r is Err ==> q == Err::<Seq<u8>, DnsError>(r->Err_0)
        },
{
    let name = DnsName::new(name.to_owned())?;
    encode_query(DnsHeader::new(id, flags), name, record_type)
}

/// The query, under a fresh random id, for records of type `record_type`
/// of `name`, with the given flags. Fails as `build_query_with_id` does.
pub fn build_query(name: &str, record_type: u16, flags: u16) -> (r: Result<Vec<u8>, DnsError>)
    ensures
        !name.is_ascii() ==> r == Err::<Vec<u8>, DnsError>(DnsError::NonAsciiName),
        name.is_ascii() ==> {
            let q = query_result(0, flags, ascii_bytes(name@), record_type);
            &&& r is Ok <==> q is Ok
            &&& r is Ok ==> r->Ok_0@.len() >= 2 && r->Ok_0@ == query_wire(
                (r->Ok_0@[0] as int * 256 + r->Ok_0@[1] as int) as u16,
                flags,
                ascii_bytes(name@),
                record_type,
            )
            &&& r is Err ==> q == Err::<Seq<u8>, DnsError>(r->Err_0)
        },
{
    let header = DnsHeader::new_with_rand_id(flags);
    let name = DnsName::new(name.to_owned())?;
    encode_query(header, name, record_type)
}

// ---------------------------------------------------------------------------
// Reading a response.

/// What a response tells the resolver, with addresses and names as text.
pub enum ReplyView {
    /// An address that answers the question.
    Answer(Seq<u8>),
    /// The address of a name server to ask next (glue).
    Additional(Seq<u8>),
    /// The name of a name server to ask next, whose address is unknown.
    Authority(Seq<u8>),
}

/// How a response is read, in a fixed order of preference: an address among
/// the answers; else an address among the additional records; else a name
/// server among the authority records; else nothing usable.
pub open spec fn classify(p: PacketView) -> Option<ReplyView> {
    match first_address(p.answers) {
        Some(a) => Some(ReplyView::Answer(dotted_quad(a))),
        None => match first_address(p.additionals) {
            Some(a) => Some(ReplyView::Additional(dotted_quad(a))),
            None => match first_domain(p.authorities) {
                Some(t) => Some(ReplyView::Authority(t)),
                None => None,
            },
        },
    }
}

/// What a response tells the resolver.
#[derive(Debug)]
pub enum QueryResponse {
    /// An address that answers the question, as text.
    Answer(String),
    /// The address of a name server to ask next, as text.
    Additional(String),
    /// The name of a name server to ask next.
    Authority(String),
}

/// Whether `r` says what `v` says, with text as characters.
pub open spec fn response_is(r: QueryResponse, v: ReplyView) -> bool {
    match (r, v) {
        (QueryResponse::Answer(s), ReplyView::Answer(t)) => s@ == ascii_chars(t),
        (QueryResponse::Additional(s), ReplyView::Additional(t)) => s@ == ascii_chars(t),
        (QueryResponse::Authority(s), ReplyView::Authority(t)) => s@ == ascii_chars(t),
        _ => false,
    }
}

/// What a response tells the resolver, with text as ASCII bytes.
enum Reply {
    Answer(Vec<u8>),
    Additional(Vec<u8>),
    Authority(Vec<u8>),
}

impl View for Reply {
    type V = ReplyView;

    closed spec fn view(&self) -> ReplyView {
        match self {
            Reply::Answer(t) => ReplyView::Answer(t@),
            Reply::Additional(t) => ReplyView::Additional(t@),
            Reply::Authority(t) => ReplyView::Authority(t@),
        }
    }
}

/// Reads a decoded response in the order of preference of `classify`.
fn classify_packet(p: &DnsPacket) -> (r: Option<Reply>)
    ensures
        r is Some <==> classify(p@) is Some,
        r is Some ==> r->Some_0@ == classify(p@)->Some_0,
        r is Some ==> is_ascii_bytes(match r->Some_0 {
            Reply::Answer(t) => t@,
            Reply::Additional(t) => t@,
            Reply::Authority(t) => t@,
        }),
{
    match first_address_in(&p.answers) {
        Some(a) => Some(Reply::Answer(a.text_bytes())),
        None => match first_address_in(&p.additionals) {
            Some(a) => Some(Reply::Additional(a.text_bytes())),
            None => match first_domain_in(&p.authorities) {
                Some(n) => Some(Reply::Authority(slice_to_vec(n.as_bytes()))),
                None => None,
            },
        },
    }
}

impl QueryResponse {
    /// What a decoded response tells the resolver: an address among the
    /// answers, else an address among the additional records, else a name
    /// server among the authority records; fails where there is none.
    pub fn from_packet(packet: &DnsPacket) -> (r: Result<QueryResponse, DnsError>)
        ensures
            r is Ok <==> classify(packet@) is Some,
            r is Ok ==> response_is(r->Ok_0, classify(packet@)->Some_0),
            r is Err ==> r->Err_0 == DnsError::Unresolvable,
    {
        match classify_packet(packet) {
            Some(Reply::Answer(t)) => Ok(QueryResponse::Answer(string_from_ascii(t))),
            Some(Reply::Additional(t)) => Ok(QueryResponse::Additional(string_from_ascii(t))),
            Some(Reply::Authority(t)) => Ok(QueryResponse::Authority(string_from_ascii(t))),
            None => Err(DnsError::Unresolvable),
        }
    }
}

// ---------------------------------------------------------------------------
// Walking delegations.

/// The most queries one resolution may send, nested lookups of name servers
/// included. It bounds every walk, also one caught in a cycle of
/// delegations.
pub const MAX_HOPS: u32 = 32;

/// The address of the root server that every walk starts from.
pub open spec fn root_hint() -> Seq<u8> {
    seq![198u8, 41u8, 0u8, 4u8]
}

/// One lookup under way: the name and type asked for, and the server that
/// is asked next, as text.
pub struct LookupView {
    pub name: Seq<u8>,
    pub rtype: u16,
    pub server: Seq<u8>,
}

/// A resolution under way: a stack of lookups, each but the top one waiting
/// for the address of a name server that the lookup above it resolves; the
/// number of queries sent; and the id of the last one.
pub struct ResolutionView {
    pub pending: Seq<LookupView>,
    pub hops: u32,
    pub sent_id: u16,
}

/// What to do next.
pub enum StepView {
    /// Send `query` to port 53 of `server`, and hand the reply to `next`.
    Send { next: ResolutionView, server: Seq<char>, query: Seq<u8> },
    /// The walk is over: this address answers the question.
    Resolved(Seq<char>),
    /// The walk is over and failed.
    Failed(DnsError),
}

/// Sending the query of the top lookup, under the id `id`; unless the hop
/// budget is spent, or the name does not encode.
pub open spec fn send_next(pending: Seq<LookupView>, hops: u32, id: u16) -> StepView {
    if hops >= MAX_HOPS {
        StepView::Failed(DnsError::HopLimitExceeded)
    } else {
        let top = pending.last();
        match query_result(id, 0, top.name, top.rtype) {
            Err(e) => StepView::Failed(e),
            Ok(w) => StepView::Send {
                next: ResolutionView { pending, hops: (hops + 1) as u32, sent_id: id },
                server: ascii_chars(top.server),
                query: w,
            },
        }
    }
}

/// Whether a response answers the last query sent: the same id, and the
/// same question first.
pub open spec fn echoes(p: PacketView, st: ResolutionView) -> bool {
    &&& p.header.id == st.sent_id
    &&& p.questions.len() >= 1
    &&& p.questions[0] == (QuestionView {
        name: st.pending.last().name,
        qtype: st.pending.last().rtype,
        qclass: CLASS_IN,
    })
}

/// What follows the reply `reply` to the last query, where the next query,
/// if any, is sent under the id `id`:
/// - an address among the answers resolves the top lookup: that ends the
///   walk, or becomes the server of the lookup below it;
/// - else a glue address becomes the top lookup's server;
/// - else a name server's name is looked up first, from the root;
/// - else, or where the reply is corrupt or answers another query, the walk
///   fails.
pub open spec fn after_reply(st: ResolutionView, reply: Seq<u8>, id: u16) -> StepView {
    match decode_packet_at(reply, 0) {
        None => StepView::Failed(DnsError::CorruptMessage),
        Some((p, _)) => if !echoes(p, st) {
            StepView::Failed(DnsError::ResponseMismatch)
        } else {
            let top = st.pending.last();
            let last = st.pending.len() - 1;
            match classify(p) {
                None => StepView::Failed(DnsError::Unresolvable),
                Some(ReplyView::Answer(a)) => if st.pending.len() == 1 {
                    StepView::Resolved(ascii_chars(a))
                } else {
                    let below = st.pending.drop_last();
                    send_next(
                        below.update(last - 1, LookupView { server: a, ..below.last() }),
                        st.hops,
                        id,
                    )
                },
                Some(ReplyView::Additional(a)) => send_next(
                    st.pending.update(last, LookupView { server: a, ..top }),
                    st.hops,
                    id,
                ),
                Some(ReplyView::Authority(t)) => send_next(
                    st.pending.push(LookupView { name: t, rtype: TYPE_A, server: dotted_quad(root_hint()) }),
                    st.hops,
                    id,
                ),
            }
        },
    }
}

/// An address among the answers wins over everything else in a response:
/// the resolver reports the first one, whatever the additional and
/// authority records hold.
pub proof fn lemma_answer_wins(p: PacketView)
    requires
        first_address(p.answers) is Some,
    ensures
        classify(p) == Some(ReplyView::Answer(dotted_quad(first_address(p.answers)->Some_0))),
{
}

/// A reply to a top-level lookup that holds an address among its answers
/// ends the walk with that address, whatever else it holds.
pub proof fn lemma_answer_resolves(st: ResolutionView, reply: Seq<u8>, id: u16)
    requires
        st.pending.len() == 1,
        decode_packet_at(reply, 0) is Some,
        echoes(decode_packet_at(reply, 0)->Some_0.0, st),
        first_address(decode_packet_at(reply, 0)->Some_0.0.answers) is Some,
    ensures
        after_reply(st, reply, id) == StepView::Resolved(
            ascii_chars(dotted_quad(first_address(decode_packet_at(reply, 0)->Some_0.0.answers)->Some_0)),
        ),
{
}

/// Without an address among the answers, a glue address among the
/// additional records wins over the authority records: the next query goes
/// to that address, and no name server's name is looked up.
pub proof fn lemma_glue_is_next_server(st: ResolutionView, reply: Seq<u8>, id: u16)
    requires
        st.pending.len() >= 1,
        st.hops < MAX_HOPS,
        query_result(id, 0, st.pending.last().name, st.pending.last().rtype) is Ok,
        decode_packet_at(reply, 0) is Some,
        echoes(decode_packet_at(reply, 0)->Some_0.0, st),
        first_address(decode_packet_at(reply, 0)->Some_0.0.answers) is None,
        first_address(decode_packet_at(reply, 0)->Some_0.0.additionals) is Some,
    ensures
        after_reply(st, reply, id) is Send,
        after_reply(st, reply, id)->Send_server == ascii_chars(
            dotted_quad(first_address(decode_packet_at(reply, 0)->Some_0.0.additionals)->Some_0),
        ),
        after_reply(st, reply, id)->Send_next.pending.len() == st.pending.len(),
{
    let p = decode_packet_at(reply, 0)->Some_0.0;
    let a = dotted_quad(first_address(p.additionals)->Some_0);
    let last = st.pending.len() - 1;
    let pending = st.pending.update(last, LookupView { server: a, ..st.pending.last() });
    assert(pending.last() == LookupView { server: a, ..st.pending.last() });
}

/// One lookup under way.
struct Lookup {
    name: Vec<u8>,
    rtype: u16,
    server: Vec<u8>,
}

impl View for Lookup {
    type V = LookupView;

    closed spec fn view(&self) -> LookupView {
        LookupView { name: self.name@, rtype: self.rtype, server: self.server@ }
    }
}

/// The views of a stack of lookups.
spec fn lookup_views(v: Seq<Lookup>) -> Seq<LookupView> {
    v.map_values(|l: Lookup| l@)
}

/// Lookups whose names and servers are ASCII text.
spec fn ascii_lookups(v: Seq<Lookup>) -> bool {
    forall|i: int| 0 <= i < v.len() ==> is_ascii_bytes(#[trigger] v[i]@.name) && is_ascii_bytes(v[i]@.server)
}

/// A resolution under way, waiting for the reply to its last query.
pub struct Resolution {
    pending: Vec<Lookup>,
    hops: u32,
    sent_id: u16,
}

impl View for Resolution {
    type V = ResolutionView;

    closed spec fn view(&self) -> ResolutionView {
        ResolutionView { pending: lookup_views(self.pending@), hops: self.hops, sent_id: self.sent_id }
    }
}

/// What to do next.
pub enum Step {
    /// Send `query` to port 53 of `server`, and hand the reply to `next`.
    Send { next: Resolution, server: String, query: Vec<u8> },
    /// The walk is over: this address answers the question, as text.
    Resolved(String),
    /// The walk is over and failed.
    Failed(DnsError),
}

impl View for Step {
    type V = StepView;

    open spec fn view(&self) -> StepView {
        match self {
            Step::Send { next, server, query } => StepView::Send { next: next@, server: server@, query: query@ },
            Step::Resolved(s) => StepView::Resolved(s@),
            Step::Failed(e) => StepView::Failed(*e),
        }
    }
}

/// The bytes that a reader over the first `len` bytes of `buf` reaches.
pub open spec fn usable(buf: Seq<u8>, len: usize) -> Seq<u8> {
    buf.subrange(0, if len <= buf.len() { len as int } else { buf.len() as int })
}

/// Whether two byte strings are equal.
fn same_bytes(a: &[u8], b: &[u8]) -> (r: bool)
    ensures
        r == (a@ == b@),
{
    if a.len() != b.len() {
        return false;
    }
    let mut i: usize = 0;
    while i < a.len()
        invariant
            i <= a@.len(),
            a@.len() == b@.len(),
            forall|j: int| 0 <= j < i ==> a@[j] == b@[j],
        decreases a@.len() - i,
    {
        if a[i] != b[i] {
            return false;
        }
        i = i + 1;
    }
    assert(a@ =~= b@);
    true
}

/// A copy of the bytes.
fn copy_bytes(v: &Vec<u8>) -> (r: Vec<u8>)
    ensures
        r@ == v@,
{
    slice_to_vec(v.as_slice())
}

/// The text bytes of the root server's address.
fn root_hint_text() -> (r: Vec<u8>)
    ensures
        r@ == dotted_quad(root_hint()),
        is_ascii_bytes(r@),
{
    let a = IPv4::new(198, 41, 0, 4);
    a.text_bytes()
}

impl Resolution {
    #[verifier::type_invariant]
    spec fn inv(&self) -> bool {
        &&& self.pending@.len() >= 1
        &&& ascii_lookups(self.pending@)
    }

    /// Starts resolving records of type `record_type` of `name` from the root
    /// server: the first query, under the id `id`, or the failure where the
    /// name does not encode.
    pub fn start(name: &str, record_type: u16, id: u16) -> (r: Step)
        ensures
            !name.is_ascii() ==> r@ == StepView::Failed(DnsError::NonAsciiName),
            name.is_ascii() ==> r@ == send_next(
                seq![LookupView { name: ascii_bytes(name@), rtype: record_type, server: dotted_quad(root_hint()) }],
                0,
                id,
            ),
    {
        if !name.is_ascii() {
            return Step::Failed(DnsError::NonAsciiName);
        }
        let text = ascii_bytes_of(name);
        let first = Lookup { name: text, rtype: record_type, server: root_hint_text() };
        let mut pending: Vec<Lookup> = Vec::new();
        pending.push(first);
        assert(lookup_views(pending@) =~= seq![first@]);
        Resolution::send_next(pending, 0, id)
    }

    /// Whether a decoded response answers the last query sent.
    fn echoed_by(&self, p: &DnsPacket) -> (r: bool)
        ensures
            r == echoes(p@, self@),
    {
        proof {
            use_type_invariant(self);
        }
        let last = self.pending.len() - 1;
        assert(lookup_views(self.pending@).last() == self.pending@[last as int]@);
        if p.header.id != self.sent_id || p.questions.len() == 0 {
            return false;
        }
        let q = &p.questions[0];
        assert(p@.questions[0] == q@);
        let top = &self.pending[last];
        same_bytes(q.name().as_bytes(), top.name.as_slice()) && q.qtype() == top.rtype && q.qclass() == CLASS_IN
    }

    /// Takes the reply to the last query, held in the first `len` bytes of
    /// `reply`, and says what follows (see `after_reply`); a next query goes
    /// out under the id `next_id`.
    pub fn on_reply(self, reply: &[u8], len: usize, next_id: u16) -> (r: Step)
        ensures
            r@ == after_reply(self@, usable(reply@, len), next_id),
    {
        proof {
            use_type_invariant(&self);
        }
        let mut rd = Reader::new(reply, len);
        let packet = match DnsPacket::decode(&mut rd) {
            Ok(p) => p,
            Err(e) => return Step::Failed(e),
        };
        if !self.echoed_by(&packet) {
            return Step::Failed(DnsError::ResponseMismatch);
        }
        let reply = match classify_packet(&packet) {
            Some(c) => c,
            None => return Step::Failed(DnsError::Unresolvable),
        };
        let ghost st = self@;
        let Resolution { mut pending, hops, sent_id: _ } = self;
        let ghost views = lookup_views(pending@);
        assert(views == st.pending);
        let ghost n = pending@.len();
        match reply {
            Reply::Answer(a) => {
                if pending.len() == 1 {
                    return Step::Resolved(string_from_ascii(a));
                }
                let _ = pending.pop();
                let ghost below = pending@;
                assert(lookup_views(below) =~= views.drop_last());
                match pending.pop() {
                    Some(l) => {
                        pending.push(Lookup { name: l.name, rtype: l.rtype, server: a });
                    },
                    None => {},
                }
                assert(lookup_views(pending@) =~= views.drop_last().update(
                    n - 2,
                    LookupView { server: a@, ..views.drop_last().last() },
                ));
                Resolution::send_next(pending, hops, next_id)
            },
            Reply::Additional(a) => {
                match pending.pop() {
                    Some(l) => {
                        pending.push(Lookup { name: l.name, rtype: l.rtype, server: a });
                    },
                    None => {},
                }
                assert(lookup_views(pending@) =~= views.update(
                    n - 1,
                    LookupView { server: a@, ..views.last() },
                ));
                Resolution::send_next(pending, hops, next_id)
            },
            Reply::Authority(t) => {
                pending.push(Lookup { name: t, rtype: TYPE_A, server: root_hint_text() });
                assert(lookup_views(pending@) =~= views.push(
                    LookupView { name: t@, rtype: TYPE_A, server: dotted_quad(root_hint()) },
                ));
                Resolution::send_next(pending, hops, next_id)
            },
        }
    }

    /// Sends the query of the top lookup under the id `id`.
    fn send_next(pending: Vec<Lookup>, hops: u32, id: u16) -> (r: Step)
        requires
            pending@.len() >= 1,
            ascii_lookups(pending@),
        ensures
            r@ == send_next(lookup_views(pending@), hops, id),
    {
        if hops >= MAX_HOPS {
            return Step::Failed(DnsError::HopLimitExceeded);
        }
        let last = pending.len() - 1;
        let ghost top = pending@[last as int]@;
        assert(lookup_views(pending@).last() == top);
        let name = DnsName::from_ascii(copy_bytes(&pending[last].name));
        let rtype = pending[last].rtype;
        let server = string_from_ascii(copy_bytes(&pending[last].server));
        match encode_query(DnsHeader::new(id, 0), name, rtype) {
            Err(e) => Step::Failed(e),
            Ok(query) => Step::Send {
                next: Resolution { pending, hops: hops + 1, sent_id: id },
                server,
                query,
            },
        }
    }
}

} // verus!
