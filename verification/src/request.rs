//! What the proxy does with one received DNS datagram: judging it, and the
//! steps of the HTTPS exchange that forwards its question.
use vstd::prelude::*;

use crate::config::Config;
use crate::query::{
    be16, built_query, class_field, clear_flags, encode_name, labels_fit,
    oversized, query_body, query_header, LABEL_DOT,
};
use crate::resolver::Resolver;

verus! {

/// Size of the receive buffer of the listening socket, and so the most bytes
/// that one datagram can hand over.
pub const RECEIVE_BUFFER_LEN: usize = 1500;

/// Length of the reply sent back to the client once the resolver answered.
/// The answer is not yet translated into DNS: the reply is all zero bytes.
pub const REPLY_LEN: usize = 1500;

/// One question of a parsed DNS packet: its query type code and its name,
/// labels joined by dots.
pub struct DnsQuestion {
    pub qtype: u16,
    pub qname: String,
}

impl View for DnsQuestion {
    type V = (u16, Seq<char>);

    open spec fn view(&self) -> (u16, Seq<char>) {
        (self.qtype, self.qname@)
    }
}

/// The questions, each by its view.
pub open spec fn question_views(qs: Seq<DnsQuestion>) -> Seq<(u16, Seq<char>)> {
    qs.map_values(|q: DnsQuestion| q@)
}

/// A dotted name that goes on the wire without compression and reads back
/// as itself: not empty, every label non-empty and shorter than the label
/// limit, and ASCII only.
pub open spec fn plain_name(n: Seq<u8>) -> bool {
    &&& n.len() > 0
    &&& labels_fit(n)
    &&& forall|k: int| 0 <= k < n.len() ==> #[trigger] n[k] < 128
    &&& forall|k: int|
        0 <= k < n.len() && #[trigger] n[k] == LABEL_DOT ==> 0 < k < n.len() - 1 && n[k + 1]
            != LABEL_DOT
}

/// The bytes of an ASCII name, as characters.
pub open spec fn ascii_chars(n: Seq<u8>) -> Seq<char> {
    n.map_values(|b: u8| b as char)
}

/// The query type codes that `dns_parser::QueryType` knows: A, NS, MF,
/// CNAME, SOA, MB, MG, MR, NULL, WKS, PTR, HINFO, MINFO, MX, TXT, AAAA, SRV,
/// AXFR, MAILB, MAILA and `*`.
pub open spec fn valid_query_type(t: u16) -> bool {
    (1 <= t <= 16 && t != 3) || t == 28 || t == 33 || 252 <= t <= 255
}

/// A class field whose class (the low 15 bits) `dns_parser::QueryClass`
/// knows: IN, CS, CH, HS or `*`.
pub open spec fn valid_query_class(c: u16) -> bool {
    let k = c % 32768;
    k == 1 || k == 2 || k == 3 || k == 4 || k == 255
}

/// An EDNS OPT pseudo-record starts at `o`: empty owner name, type 41, and
/// as many data bytes as its data length field says.
pub open spec fn opt_record_at(data: Seq<u8>, o: int) -> bool {
    &&& 0 <= o
    &&& o + 11 <= data.len()
    &&& data[o] == 0 && data[o + 1] == 0 && data[o + 2] == 41
    &&& o + 11 + (data[o + 9] * 256 + data[o + 10]) <= data.len()
}

/// `data` is a DNS message with a 12-byte header whose reserved flag bit is
/// clear, exactly one question (the plain name `n`, type `t` and class field
/// `c`, both known to the parser), no answer or authority record, and either
/// no additional record or one EDNS OPT record right after the question.
pub open spec fn single_query_datagram(data: Seq<u8>, n: Seq<u8>, t: u16, c: u16) -> bool {
    let q = encode_name(n) + be16(t) + be16(c);
    let end = 12 + q.len() as int;
    &&& data.len() >= end
    &&& data[3] & 0x40u8 == 0
    &&& data[4] == 0 && data[5] == 1
    &&& data[6] == 0 && data[7] == 0 && data[8] == 0 && data[9] == 0
    &&& data.subrange(12, end) == q
    &&& plain_name(n)
    &&& valid_query_type(t)
    &&& valid_query_class(c)
    &&& data[10] == 0
    &&& (data[11] == 0 || (data[11] == 1 && opt_record_at(data, end)))
}

/// The questions, by type code and dotted name, that
/// `dns_parser::Packet::parse` finds in `data`; `None` where it refuses
/// `data`.
pub uninterp spec fn parsed_questions(data: Seq<u8>) -> Option<Seq<(u16, Seq<char>)>>;

/// Calls `dns_parser::Packet::parse` on `data` and keeps the questions of
/// the packet: for each, the code of its `QueryType` (the enum's
/// discriminant is the code read from the packet) and its name as `Name`'s
/// `Display` writes it. The contract names the result `parsed_questions`
/// and adds facts that the crate's source shows: `Header::parse` refuses
/// fewer than 12 bytes; one question is read per unit of the header's 16-bit
/// question count in bytes 4 and 5; a message made of a header, one question
/// with a plain name and known type and class, and at most an EDNS OPT
/// record (`single_query_datagram`) parses to that one question, the type
/// being the code read and the name its labels joined by dots; and the first
/// question of any accepted message that starts with a plain name has the
/// type code that follows that name. Which other inputs are refused, and how
/// compressed names are read, is left unsaid.
#[verifier::external_body]
fn parse_questions(data: &[u8]) -> (r: Option<Vec<DnsQuestion>>)
    ensures
        match r {
            Some(qs) => parsed_questions(data@) == Some(question_views(qs@)),
            None => parsed_questions(data@) is None,
        },
        data@.len() < 12 ==> r is None,
        r matches Some(qs) ==> qs@.len() == data@[4] as int * 256 + data@[5] as int,
        r is None ==> forall|n: Seq<u8>, t: u16, c: u16|
            !#[trigger] single_query_datagram(data@, n, t, c),
        r matches Some(qs) ==> forall|n: Seq<u8>, t: u16, c: u16|
            #[trigger] single_query_datagram(data@, n, t, c) ==> question_views(qs@) == seq![
                (t, ascii_chars(n)),
            ],
        r matches Some(qs) ==> forall|n: Seq<u8>|
            qs@.len() >= 1 && #[trigger] plain_name(n) && 12 + encode_name(n).len() as int
                <= data@.len() && data@.subrange(12, 12 + encode_name(n).len() as int) == encode_name(n)
                ==> question_views(qs@)[0] == (
                (data@[12 + encode_name(n).len() as int] * 256 + data@[13 + encode_name(n).len() as int]) as u16,
                ascii_chars(n),
            ),
{
    match dns_parser::Packet::parse(data) {
        Ok(packet) => {
            let mut qs = Vec::new();
            for q in packet.questions.iter() {
                qs.push(DnsQuestion { qtype: q.qtype as u16, qname: q.qname.to_string() });
            }
            Some(qs)
        },
        Err(_) => None,
    }
}

/// A question to forward, and the resolver to forward it to.
pub struct Exchange {
    pub resolver: Resolver,
    pub qtype: u16,
    pub qname: String,
}

pub struct ExchangeView {
    pub resolver: Resolver,
    pub qtype: u16,
    pub qname: Seq<char>,
}

impl View for Exchange {
    type V = ExchangeView;

    open spec fn view(&self) -> ExchangeView {
        ExchangeView { resolver: self.resolver, qtype: self.qtype, qname: self.qname@ }
    }
}

/// What becomes of a received datagram.
pub enum RequestOutcome {
    /// It is not a DNS packet that the parser accepts.
    Malformed,
    /// It holds this many questions; only one is supported.
    QuestionCount(usize),
    /// Its single question is forwarded.
    Forward(Exchange),
}

pub enum OutcomeView {
    Malformed,
    QuestionCount(nat),
    Forward(ExchangeView),
}

impl View for RequestOutcome {
    type V = OutcomeView;

    open spec fn view(&self) -> OutcomeView {
        match self {
            RequestOutcome::Malformed => OutcomeView::Malformed,
            RequestOutcome::QuestionCount(n) => OutcomeView::QuestionCount(*n as nat),
            RequestOutcome::Forward(ex) => OutcomeView::Forward(ex@),
        }
    }
}

/// The outcome for a datagram whose questions are `parsed` (`None`: not a
/// DNS packet): exactly one question is forwarded to `resolver`, any other
/// number is refused.
pub open spec fn packet_outcome(
    resolver: Resolver,
    parsed: Option<Seq<(u16, Seq<char>)>>,
) -> OutcomeView {
    match parsed {
        None => OutcomeView::Malformed,
        Some(qs) => if qs.len() == 1 {
            OutcomeView::Forward(ExchangeView { resolver, qtype: qs[0].0, qname: qs[0].1 })
        } else {
            OutcomeView::QuestionCount(qs.len())
        },
    }
}

/// The view of an optional list of questions.
pub open spec fn parsed_view(parsed: Option<Vec<DnsQuestion>>) -> Option<Seq<(u16, Seq<char>)>> {
    match parsed {
        None => None,
        Some(qs) => Some(question_views(qs@)),
    }
}

/// Decides on a datagram from the questions found in it.
pub fn judge_questions(config: &Config, parsed: Option<Vec<DnsQuestion>>) -> (r: RequestOutcome)
    ensures
        r@ == packet_outcome(config.resolver, parsed_view(parsed)),
{
    match parsed {
        None => RequestOutcome::Malformed,
        Some(mut qs) => {
            if qs.len() != 1 {
                RequestOutcome::QuestionCount(qs.len())
            } else {
                let q = qs.pop().unwrap();
                proof {
                    assert(question_views(parsed->0@)[0] == q@);
                }
                RequestOutcome::Forward(
                    Exchange { resolver: config.resolver, qtype: q.qtype, qname: q.qname },
                )
            }
        },
    }
}

/// Parses a received datagram and decides on it: a DNS packet with exactly
/// one question is forwarded to the configured resolver; anything else is
/// dropped.
pub fn parse_packet(config: &Config, buf: &[u8]) -> (r: RequestOutcome)
    ensures
        r@ == packet_outcome(config.resolver, parsed_questions(buf@)),
        buf@.len() < 12 ==> r@ == OutcomeView::Malformed,
        r matches RequestOutcome::QuestionCount(n) ==> n == buf@[4] as int * 256 + buf@[5] as int,
        forall|n: Seq<u8>, t: u16, c: u16|
            #[trigger] single_query_datagram(buf@, n, t, c) ==> r@ == OutcomeView::Forward(
                ExchangeView { resolver: config.resolver, qtype: t, qname: ascii_chars(n) },
            ),
        r matches RequestOutcome::Forward(ex) ==> forall|n: Seq<u8>|
            #[trigger] plain_name(n) && 12 + encode_name(n).len() as int <= buf@.len()
                && buf@.subrange(12, 12 + encode_name(n).len() as int) == encode_name(n) ==> ex.qtype
                == buf@[12 + encode_name(n).len() as int] * 256 + buf@[13 + encode_name(n).len() as int]
                && ex.qname@ == ascii_chars(n),
        forall|id: u16, recursion: bool, n: Seq<u8>, unicast: bool, t: u16, c: u16|
            buf@ == #[trigger] built_query(id, recursion, n, unicast, t, c) && plain_name(n)
                && valid_query_type(t) && valid_query_class(c) ==> r@ == OutcomeView::Forward(
                ExchangeView { resolver: config.resolver, qtype: t, qname: ascii_chars(n) },
            ),
{
    let parsed = parse_questions(buf);
    let ghost seen = parsed;
    let r = judge_questions(config, parsed);
    proof {
        assert forall|n: Seq<u8>, t: u16, c: u16|
            #[trigger] single_query_datagram(buf@, n, t, c) implies r@ == OutcomeView::Forward(
            ExchangeView { resolver: config.resolver, qtype: t, qname: ascii_chars(n) },
        ) by {
            let qs = seen->0;
            assert(question_views(qs@) == seq![(t, ascii_chars(n))]);
            assert(question_views(qs@).len() == 1);
        }
        if r is Forward {
            let qs = seen->0;
            assert forall|n: Seq<u8>|
                #[trigger] plain_name(n) && 12 + encode_name(n).len() as int <= buf@.len()
                    && buf@.subrange(12, 12 + encode_name(n).len() as int) == encode_name(n)
                    implies r->Forward_0.qtype == buf@[12 + encode_name(n).len() as int] * 256
                + buf@[13 + encode_name(n).len() as int] && r->Forward_0.qname@ == ascii_chars(n) by {
                let e = 12 + encode_name(n).len() as int;
                let v = buf@[e] * 256 + buf@[e + 1];
                assert(0 <= v < 65536);
                assert(question_views(qs@)[0] == (v as u16, ascii_chars(n)));
            }
        }
        assert forall|id: u16, recursion: bool, n: Seq<u8>, unicast: bool, t: u16, c: u16|
            buf@ == #[trigger] built_query(id, recursion, n, unicast, t, c) && plain_name(n)
                && valid_query_type(t) && valid_query_class(c) implies r@ == OutcomeView::Forward(
            ExchangeView { resolver: config.resolver, qtype: t, qname: ascii_chars(n) },
        ) by {
            lemma_built_query_is_single(id, recursion, n, unicast, t, c);
            assert(single_query_datagram(buf@, n, t, class_field(c, unicast)));
        }
    }
    r
}

/// A query built for a plain name and a type and class that the parser
/// knows is a single-question datagram, whatever its identifier, flags and
/// size.
pub proof fn lemma_built_query_is_single(
    id: u16,
    recursion: bool,
    n: Seq<u8>,
    unicast: bool,
    t: u16,
    c: u16,
)
    requires
        plain_name(n),
        valid_query_type(t),
        valid_query_class(c),
    ensures
        single_query_datagram(built_query(id, recursion, n, unicast, t, c), n, t, class_field(c, unicast)),
{
    let cf = class_field(c, unicast);
    let h = query_header(id, recursion);
    let q = encode_name(n) + be16(t) + be16(cf);
    let b = query_body(id, recursion, n, unicast, t, c);
    assert(b =~= h + q);
    let d = built_query(id, recursion, n, unicast, t, c);
    let end = 12 + q.len() as int;
    if oversized(b) {
        assert(d == clear_flags(b));
    }
    assert(d.len() == b.len());
    assert(d.subrange(12, end) =~= q);
    assert(d[3] == 0u8);
    assert(0u8 & 0x40u8 == 0) by (bit_vector);
    if unicast {
        assert((c | 0x8000u16) % 32768 == c % 32768) by (bit_vector);
    }
}

/// A datagram is forwarded exactly when it parses to a single question, and
/// then it goes to the configured resolver with that question's type and
/// name; a datagram that does not parse is malformed, and one with any other
/// number of questions is refused with that number.
pub proof fn lemma_forward_iff_single_question(
    resolver: Resolver,
    parsed: Option<Seq<(u16, Seq<char>)>>,
)
    ensures
        packet_outcome(resolver, parsed) is Forward <==> (parsed matches Some(qs) && qs.len()
            == 1),
        packet_outcome(resolver, parsed) is Malformed <==> parsed is None,
        parsed matches Some(qs) ==> (qs.len() != 1 ==> packet_outcome(resolver, parsed)
            == OutcomeView::QuestionCount(qs.len())),
        packet_outcome(resolver, parsed) matches OutcomeView::Forward(ex) ==> ex.resolver
            == resolver && ex.qtype == parsed->0[0].0 && ex.qname == parsed->0[0].1,
{
}

/// The bytes of a datagram of `amt` bytes received into `buf`.
pub fn received_datagram(buf: &[u8], amt: usize) -> (d: Vec<u8>)
    requires
        amt <= buf@.len(),
    ensures
        d@ == buf@.take(amt as int),
{
    let mut d: Vec<u8> = Vec::new();
    let mut i: usize = 0;
    while i < amt
        invariant
            i <= amt <= buf@.len(),
            d@ == buf@.take(i as int),
        decreases amt - i,
    {
        d.push(buf[i]);
        assert(buf@.take(i + 1) =~= buf@.take(i as int).push(buf@[i as int]));
        i = i + 1;
    }
    d
}

} // verus!
