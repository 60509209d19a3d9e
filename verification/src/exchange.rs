//! The steps of one forwarded exchange: open TCP to the resolver, open TLS
//! for its domain, send the HTTP request, answer the client. The network
//! work is done by the caller, which reports each outcome as an event.
use vstd::prelude::*;

use crate::request::{packet_outcome, parsed_questions, Exchange, ExchangeView, OutcomeView, REPLY_LEN};
use crate::resolver::Resolver;

verus! {

/// Where an exchange stands.
pub enum ExchangeState {
    /// A TCP connection to the resolver's address was asked for.
    AwaitingTcp(Exchange),
    /// A TLS session over that connection was asked for.
    AwaitingTls(Exchange),
    /// The request was handed over; the resolver's answer is awaited.
    AwaitingResponse(Exchange),
    /// Nothing more is to be done.
    Finished,
}

/// What the network work came to.
pub enum ExchangeEvent {
    TcpConnected,
    TcpFailed,
    TlsConnected,
    TlsFailed,
    /// The resolver's whole answer, read to the end of the stream.
    ResponseReceived(Vec<u8>),
}

/// What the caller is to do next.
pub enum ExchangeAction {
    /// Open a TCP connection to this address.
    ConnectTcp(&'static str),
    /// Start TLS on the connection for this domain (SNI and certificate).
    StartTls(&'static str),
    /// Write this request on the TLS stream, then read the answer to its end.
    SendRequest(String),
    /// Send these bytes back to the client that asked.
    Reply(Vec<u8>),
    /// Give the exchange up; the client gets no reply.
    Abandon,
}

pub enum StateView {
    AwaitingTcp(ExchangeView),
    AwaitingTls(ExchangeView),
    AwaitingResponse(ExchangeView),
    Finished,
}

pub enum EventView {
    TcpConnected,
    TcpFailed,
    TlsConnected,
    TlsFailed,
    ResponseReceived(Seq<u8>),
}

pub enum ActionView {
    ConnectTcp(Seq<char>),
    StartTls(Seq<char>),
    SendRequest(Seq<char>),
    Reply(Seq<u8>),
    Abandon,
}

impl View for ExchangeState {
    type V = StateView;

    open spec fn view(&self) -> StateView {
        match self {
            ExchangeState::AwaitingTcp(ex) => StateView::AwaitingTcp(ex@),
            ExchangeState::AwaitingTls(ex) => StateView::AwaitingTls(ex@),
            ExchangeState::AwaitingResponse(ex) => StateView::AwaitingResponse(ex@),
            ExchangeState::Finished => StateView::Finished,
        }
    }
}

impl View for ExchangeEvent {
    type V = EventView;

    open spec fn view(&self) -> EventView {
        match self {
            ExchangeEvent::TcpConnected => EventView::TcpConnected,
            ExchangeEvent::TcpFailed => EventView::TcpFailed,
            ExchangeEvent::TlsConnected => EventView::TlsConnected,
            ExchangeEvent::TlsFailed => EventView::TlsFailed,
            ExchangeEvent::ResponseReceived(data) => EventView::ResponseReceived(data@),
        }
    }
}

impl View for ExchangeAction {
    type V = ActionView;

    open spec fn view(&self) -> ActionView {
        match self {
            ExchangeAction::ConnectTcp(addr) => ActionView::ConnectTcp(addr@),
            ExchangeAction::StartTls(domain) => ActionView::StartTls(domain@),
            ExchangeAction::SendRequest(request) => ActionView::SendRequest(request@),
            ExchangeAction::Reply(data) => ActionView::Reply(data@),
            ExchangeAction::Abandon => ActionView::Abandon,
        }
    }
}

/// The reply sent once the resolver answered: `REPLY_LEN` zero bytes.
pub open spec fn reply_bytes() -> Seq<u8> {
    Seq::new(REPLY_LEN as nat, |i: int| 0u8)
}

/// The first step of a forwarded exchange.
pub open spec fn start(ex: ExchangeView) -> (StateView, ActionView) {
    (StateView::AwaitingTcp(ex), ActionView::ConnectTcp(ex.resolver.addr_spec()))
}

/// The next state and action after `event` in `state`. A failure, or an
/// event that does not fit the state, ends the exchange without a reply.
pub open spec fn transition(state: StateView, event: EventView) -> (StateView, ActionView) {
    match state {
        StateView::AwaitingTcp(ex) => match event {
            EventView::TcpConnected => (
                StateView::AwaitingTls(ex),
                ActionView::StartTls(ex.resolver.domain_spec()),
            ),
            _ => (StateView::Finished, ActionView::Abandon),
        },
        StateView::AwaitingTls(ex) => match event {
            EventView::TlsConnected => (
                StateView::AwaitingResponse(ex),
                ActionView::SendRequest(ex.resolver.request_spec(ex.qtype, ex.qname)),
            ),
            _ => (StateView::Finished, ActionView::Abandon),
        },
        StateView::AwaitingResponse(ex) => match event {
            EventView::ResponseReceived(_) => (StateView::Finished, ActionView::Reply(reply_bytes())),
            _ => (StateView::Finished, ActionView::Abandon),
        },
        StateView::Finished => (StateView::Finished, ActionView::Abandon),
    }
}

/// `REPLY_LEN` zero bytes.
fn zero_reply() -> (r: Vec<u8>)
    ensures
        r@ == reply_bytes(),
{
    let mut r: Vec<u8> = Vec::new();
    let mut i: usize = 0;
    while i < REPLY_LEN
        invariant
            i <= REPLY_LEN,
            r@ == Seq::new(i as nat, |k: int| 0u8),
        decreases REPLY_LEN - i,
    {
        r.push(0u8);
        i = i + 1;
        assert(r@ =~= Seq::new(i as nat, |k: int| 0u8));
    }
    r
}

/// Starts forwarding `ex`: connect to its resolver's address.
pub fn begin_exchange(ex: Exchange) -> (r: (ExchangeState, ExchangeAction))
    ensures
        (r.0@, r.1@) == start(ex@),
{
    let addr = ex.resolver.get_addr();
    (ExchangeState::AwaitingTcp(ex), ExchangeAction::ConnectTcp(addr))
}

/// Moves the exchange on by one event.
pub fn step(state: ExchangeState, event: ExchangeEvent) -> (r: (ExchangeState, ExchangeAction))
    ensures
        (r.0@, r.1@) == transition(state@, event@),
{
    match state {
        ExchangeState::AwaitingTcp(ex) => match event {
            ExchangeEvent::TcpConnected => {
                let domain = ex.resolver.get_domain();
                (ExchangeState::AwaitingTls(ex), ExchangeAction::StartTls(domain))
            },
            _ => (ExchangeState::Finished, ExchangeAction::Abandon),
        },
        ExchangeState::AwaitingTls(ex) => match event {
            ExchangeEvent::TlsConnected => {
                let request = ex.resolver.get_request(ex.qtype, ex.qname.as_str());
                (ExchangeState::AwaitingResponse(ex), ExchangeAction::SendRequest(request))
            },
            _ => (ExchangeState::Finished, ExchangeAction::Abandon),
        },
        ExchangeState::AwaitingResponse(ex) => match event {
            ExchangeEvent::ResponseReceived(_) => (ExchangeState::Finished, ExchangeAction::Reply(zero_reply())),
            _ => (ExchangeState::Finished, ExchangeAction::Abandon),
        },
        ExchangeState::Finished => (ExchangeState::Finished, ExchangeAction::Abandon),
    }
}

/// A datagram holding exactly one question `(qtype, qname)` is forwarded to
/// the configured resolver, and, when every network step succeeds, the
/// exchange connects to the resolver's address, opens TLS for the
/// resolver's domain, sends the request for that question and type, and
/// answers the client with the reply, whatever the resolver sent back.
pub proof fn lemma_single_question_run(resolver: Resolver, data: Seq<u8>, answer: Seq<u8>)
    requires
        parsed_questions(data) matches Some(qs) && qs.len() == 1,
    ensures
        ({
            let q = parsed_questions(data)->0[0];
            let ex = ExchangeView { resolver, qtype: q.0, qname: q.1 };
            &&& packet_outcome(resolver, parsed_questions(data)) == OutcomeView::Forward(ex)
            &&& start(ex) == (StateView::AwaitingTcp(ex), ActionView::ConnectTcp(
                resolver.addr_spec(),
            ))
            &&& transition(StateView::AwaitingTcp(ex), EventView::TcpConnected) == (
                StateView::AwaitingTls(ex),
                ActionView::StartTls(resolver.domain_spec()),
            )
            &&& transition(StateView::AwaitingTls(ex), EventView::TlsConnected) == (
                StateView::AwaitingResponse(ex),
                ActionView::SendRequest(resolver.request_spec(q.0, q.1)),
            )
            &&& transition(StateView::AwaitingResponse(ex), EventView::ResponseReceived(answer))
                == (StateView::Finished, ActionView::Reply(reply_bytes()))
        }),
{
}

/// A failed TCP connection or TLS handshake ends the exchange, and the
/// client gets no reply.
pub proof fn lemma_failure_abandons(state: StateView, event: EventView)
    requires
        event is TcpFailed || event is TlsFailed,
    ensures
        transition(state, event) == (StateView::Finished, ActionView::Abandon),
{
}

/// Once finished, an exchange stays finished and does nothing more.
pub proof fn lemma_finished_stays(event: EventView)
    ensures
        transition(StateView::Finished, event) == (StateView::Finished, ActionView::Abandon),
{
}

/// The reply does not depend on what the resolver answered: it is always
/// `REPLY_LEN` zero bytes.
pub proof fn lemma_reply_ignores_answer(ex: ExchangeView, a1: Seq<u8>, a2: Seq<u8>)
    ensures
        transition(StateView::AwaitingResponse(ex), EventView::ResponseReceived(a1)) == transition(
            StateView::AwaitingResponse(ex),
            EventView::ResponseReceived(a2),
        ),
        reply_bytes().len() == REPLY_LEN,
        forall|i: int| 0 <= i < REPLY_LEN ==> #[trigger] reply_bytes()[i] == 0u8,
{
}

/// Every exchange is over after at most three events, whatever they are.
pub proof fn lemma_exchange_ends(ex: ExchangeView, e1: EventView, e2: EventView, e3: EventView)
    ensures
        transition(transition(transition(start(ex).0, e1).0, e2).0, e3).0 == StateView::Finished,
{
}

/// Only an exchange that opened TLS sends a request, and only one that sent
/// a request replies: `StartTls` comes from `AwaitingTcp`, `SendRequest`
/// from `AwaitingTls`, `Reply` from `AwaitingResponse`.
pub proof fn lemma_actions_follow_order(state: StateView, event: EventView)
    ensures
        transition(state, event).1 is StartTls ==> state is AwaitingTcp && event is TcpConnected,
        transition(state, event).1 is SendRequest ==> state is AwaitingTls
            && event is TlsConnected,
        transition(state, event).1 is Reply ==> state is AwaitingResponse
            && event is ResponseReceived,
{
}

} // verus!
